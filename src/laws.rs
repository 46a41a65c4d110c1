use vstd::prelude::*;
use crate::model::{
    AddToCartRequest, CartProduct, Line, fresh_lines, has_product, ids_unique, lines_of,
    with_quantity, without_product,
};
use crate::service::{added_lines, cart_lines, cart_of, holds_product, lemma_fresh_unique};

verus! {

proof fn lemma_has_product_push(s: Seq<Line>, x: Line, id: Seq<char>)
    ensures
        has_product(s, id) ==> has_product(s.push(x), id),
        has_product(s.push(x), x.0),
{
    assert(s.push(x)[s.len() as int] == x);
    if has_product(s, id) {
        let i = choose|i: int| 0 <= i < s.len() && (#[trigger] s[i]).0 == id;
        assert(s.push(x)[i] == s[i]);
    }
}

/// Each line that an add appends is a line of the request, and its product was
/// not in the cart.
proof fn lemma_fresh_from_request(ex: Seq<Line>, inc: Seq<Line>)
    ensures
        forall|k: int|
            0 <= k < fresh_lines(ex, inc).len() ==> inc.contains(
                #[trigger] fresh_lines(ex, inc)[k],
            ) && !has_product(ex, fresh_lines(ex, inc)[k].0),
    decreases inc.len(),
{
    if inc.len() > 0 {
        let init = inc.drop_last();
        lemma_fresh_from_request(ex, init);
        let prev = fresh_lines(ex, init);
        let f = fresh_lines(ex, inc);
        assert forall|k: int| 0 <= k < f.len() implies inc.contains(#[trigger] f[k]) && !has_product(
            ex,
            f[k].0,
        ) by {
            if k < prev.len() {
                assert(f[k] == prev[k]);
                let m = choose|m: int| 0 <= m < init.len() && init[m] == prev[k];
                assert(inc[m] == init[m]);
            } else {
                assert(f[k] == inc.last());
                assert(inc[inc.len() - 1] == inc.last());
                if has_product(ex, f[k].0) {
                    let m = choose|m: int| 0 <= m < ex.len() && (#[trigger] ex[m]).0 == f[k].0;
                    assert((ex + prev)[m] == ex[m]);
                }
            }
        }
    }
}

/// After an add, the cart holds a line of every product of the request.
proof fn lemma_fresh_covers(ex: Seq<Line>, inc: Seq<Line>)
    ensures
        forall|k: int| 0 <= k < inc.len() ==> has_product(ex + fresh_lines(ex, inc), (#[trigger] inc[k]).0),
    decreases inc.len(),
{
    if inc.len() > 0 {
        let init = inc.drop_last();
        lemma_fresh_covers(ex, init);
        let prev = fresh_lines(ex, init);
        let last = inc.last();
        let all = ex + fresh_lines(ex, inc);
        if !has_product(ex + prev, last.0) {
            assert(all =~= (ex + prev).push(last));
        }
        assert forall|k: int| 0 <= k < inc.len() implies has_product(all, (#[trigger] inc[k]).0) by {
            if k < init.len() {
                assert(inc[k] == init[k]);
                lemma_has_product_push(ex + prev, last, init[k].0);
            } else {
                lemma_has_product_push(ex + prev, last, last.0);
            }
        }
    }
}

/// Where every product of `inc` is already in `ex`, an add appends nothing.
proof fn lemma_fresh_none(ex: Seq<Line>, inc: Seq<Line>)
    requires
        forall|k: int| 0 <= k < inc.len() ==> has_product(ex, (#[trigger] inc[k]).0),
    ensures
        fresh_lines(ex, inc).len() == 0,
    decreases inc.len(),
{
    if inc.len() > 0 {
        let init = inc.drop_last();
        assert forall|k: int| 0 <= k < init.len() implies has_product(ex, (#[trigger] init[k]).0) by {
            assert(init[k] == inc[k]);
        }
        lemma_fresh_none(ex, init);
        assert(ex + fresh_lines(ex, init) =~= ex);
        assert(inc[inc.len() - 1] == inc.last());
    }
}

/// Adding the same lines twice: after the first add the cart holds each product
/// of the request on exactly one line, and the second add appends nothing.
pub proof fn lemma_add_twice_is_noop(cart: Option<CartProduct>, req: AddToCartRequest)
    requires
        cart_of(cart, req.email@),
    ensures
        ({
            let once = cart_lines(cart) + added_lines(cart, req.products@);
            &&& ids_unique(once)
            &&& forall|k: int|
                0 <= k < req.products@.len() ==> has_product(once, (#[trigger] req.products@[k])@.0)
            &&& fresh_lines(once, lines_of(req.products@)).len() == 0
        }),
{
    let ex = cart_lines(cart);
    let inc = lines_of(req.products@);
    let once = ex + fresh_lines(ex, inc);
    lemma_fresh_unique(ex, inc);
    lemma_fresh_covers(ex, inc);
    assert forall|k: int| 0 <= k < req.products@.len() implies has_product(
        once,
        (#[trigger] req.products@[k])@.0,
    ) by {
        assert(inc[k] == req.products@[k]@);
    }
    lemma_fresh_none(once, inc);
}

/// Adding to an email that has no cart creates one whose lines are the request's
/// lines with repeated products dropped: each line is one of the request, no
/// product twice, every product of the request present.
pub proof fn lemma_add_creates_cart(req: AddToCartRequest)
    ensures
        ({
            let created = added_lines(None, req.products@);
            &&& ids_unique(created)
            &&& forall|k: int| 0 <= k < created.len() ==> lines_of(req.products@).contains(#[trigger] created[k])
            &&& forall|k: int|
                0 <= k < req.products@.len() ==> has_product(created, (#[trigger] req.products@[k])@.0)
        }),
{
    let ex = Seq::<Line>::empty();
    let inc = lines_of(req.products@);
    let created = fresh_lines(ex, inc);
    assert(ex + created =~= created);
    lemma_fresh_unique(ex, inc);
    lemma_fresh_from_request(ex, inc);
    lemma_fresh_covers(ex, inc);
    assert forall|k: int| 0 <= k < req.products@.len() implies has_product(
        created,
        (#[trigger] req.products@[k])@.0,
    ) by {
        assert(inc[k] == req.products@[k]@);
    }
}

/// Adding to an existing cart keeps its lines as they were, in front, and
/// appends only lines of the request whose product the cart did not hold.
pub proof fn lemma_add_merges(cart: CartProduct, req: AddToCartRequest)
    requires
        cart_of(Some(cart), req.email@),
    ensures
        ({
            let merged = cart.lines() + added_lines(Some(cart), req.products@);
            let added = added_lines(Some(cart), req.products@);
            &&& merged.subrange(0, cart.lines().len() as int) == cart.lines()
            &&& forall|k: int|
                0 <= k < added.len() ==> lines_of(req.products@).contains(#[trigger] added[k])
                    && !has_product(cart.lines(), added[k].0)
        }),
{
    let merged = cart.lines() + added_lines(Some(cart), req.products@);
    assert(merged.subrange(0, cart.lines().len() as int) =~= cart.lines());
    lemma_fresh_from_request(cart.lines(), lines_of(req.products@));
}

/// Setting a quantity changes the line of that product only, and stores the
/// quantity as given, zero included; the lines keep their number and order.
pub proof fn lemma_update_is_targeted(lines: Seq<Line>, id: Seq<char>, q: u32)
    ensures
        with_quantity(lines, id, q).len() == lines.len(),
        forall|j: int|
            0 <= j < lines.len() ==> (#[trigger] with_quantity(lines, id, q)[j]) == (if lines[j].0
                == id {
                (id, q)
            } else {
                lines[j]
            }),
{
}

/// A quantity update and a removal fail alike: where there is no cart, and where
/// the cart holds no line of the product.
pub proof fn lemma_not_found_alike(cart: Option<CartProduct>, id: Seq<char>)
    ensures
        cart is None ==> !holds_product(cart, id),
        cart is Some && !has_product(cart_lines(cart), id) ==> !holds_product(cart, id),
        holds_product(cart, id) <==> (cart is Some && has_product(cart_lines(cart), id)),
{
}

/// A removal leaves no line of the product, and keeps every other line.
pub proof fn lemma_remove_all(cart: CartProduct, id: Seq<char>)
    ensures
        !has_product(without_product(cart.lines(), id), id),
        forall|j: int|
            0 <= j < cart.lines().len() && (#[trigger] cart.lines()[j]).0 != id ==> without_product(
                cart.lines(),
                id,
            ).contains(cart.lines()[j]),
{
    lemma_without_keeps(cart.lines(), id);
    lemma_without_drops(cart.lines(), id);
}

proof fn lemma_without_drops(ls: Seq<Line>, id: Seq<char>)
    ensures
        !has_product(without_product(ls, id), id),
    decreases ls.len(),
{
    if ls.len() > 0 {
        lemma_without_drops(ls.drop_last(), id);
        let sub = without_product(ls.drop_last(), id);
        let w = without_product(ls, id);
        if ls.last().0 != id {
            assert forall|i: int| 0 <= i < w.len() implies (#[trigger] w[i]).0 != id by {
                if i < sub.len() {
                    assert(w[i] == sub[i]);
                }
            }
        }
    }
}

proof fn lemma_without_keeps(ls: Seq<Line>, id: Seq<char>)
    ensures
        forall|j: int|
            0 <= j < ls.len() && (#[trigger] ls[j]).0 != id ==> without_product(ls, id).contains(ls[j]),
    decreases ls.len(),
{
    if ls.len() > 0 {
        let init = ls.drop_last();
        lemma_without_keeps(init, id);
        let sub = without_product(init, id);
        let w = without_product(ls, id);
        assert forall|j: int| 0 <= j < ls.len() && (#[trigger] ls[j]).0 != id implies w.contains(ls[j]) by {
            if j < init.len() {
                assert(ls[j] == init[j]);
                assert(sub.contains(init[j]));
                if ls.last().0 != id {
                    let m = choose|m: int| 0 <= m < sub.len() && sub[m] == init[j];
                    assert(w[m] == sub[m]);
                }
            } else {
                assert(ls[j] == ls.last());
                assert(w[sub.len() as int] == ls.last());
            }
        }
    }
}

} // verus!
