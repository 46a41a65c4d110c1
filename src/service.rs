use vstd::prelude::*;
use crate::model::{
    AddToCartRequest, CartItem, CartProduct, DeleteProductRequest, Line, UpdateQuantityRequest,
    UserCartInfo, fresh_lines, has_product, ids_unique, lines_of, with_quantity, without_product,
};

verus! {

/// Why an operation on a cart did not take place.
#[derive(Debug, PartialEq, Eq, Structural)]
pub enum CartError {
    /// No cart exists for the email, or it holds no line of the product.
    NotFound,
}

/// What an add did.
#[derive(Debug, PartialEq, Eq, Structural)]
pub enum AddOutcome {
    /// At least one line was appended, or a cart was created with them.
    Added,
    /// Every product of the request was already in the cart: nothing was written.
    NothingNew,
}

/// The write that an add calls for, decided from the cart as it was read.
pub enum AddPlan {
    NothingToAdd,
    /// Append these lines to the cart, creating it if there is none.
    Append(Vec<CartItem>),
}

/// What to do after appending lines with a filter on the email.
#[derive(Debug, PartialEq, Eq, Structural)]
pub enum AppendStep {
    /// A cart matched and took the lines.
    Done,
    /// No cart matched: insert a new one holding the lines.
    InsertCart,
}

/// The lines of a cart that may be absent.
pub open spec fn cart_lines(c: Option<CartProduct>) -> Seq<Line> {
    match c {
        Some(c) => c.lines(),
        None => Seq::empty(),
    }
}

/// A cart, if there is one, is that of `email`.
pub open spec fn owned_by(c: Option<CartProduct>, email: Seq<char>) -> bool {
    match c {
        Some(c) => c.email@ == email,
        None => true,
    }
}

/// A cart, if there is one, is that of `email` and is well formed.
pub open spec fn cart_of(c: Option<CartProduct>, email: Seq<char>) -> bool {
    match c {
        Some(c) => c.email@ == email && c.wf(),
        None => true,
    }
}

/// The lines that adding `incoming` to the cart `c` appends.
pub open spec fn added_lines(c: Option<CartProduct>, incoming: Seq<CartItem>) -> Seq<Line> {
    fresh_lines(cart_lines(c), lines_of(incoming))
}

/// Whether the cart `c` exists and holds a line of product `id`.
pub open spec fn holds_product(c: Option<CartProduct>, id: Seq<char>) -> bool {
    c is Some && has_product(cart_lines(c), id)
}

proof fn lemma_has_product_concat(a: Seq<Line>, b: Seq<Line>, id: Seq<char>)
    ensures
        has_product(a + b, id) == (has_product(a, id) || has_product(b, id)),
{
    let ab = a + b;
    if has_product(ab, id) {
        let i = choose|i: int| 0 <= i < ab.len() && (#[trigger] ab[i]).0 == id;
        if i < a.len() {
            assert(a[i] == ab[i]);
        } else {
            assert(b[i - a.len()] == ab[i]);
        }
    }
    if has_product(a, id) {
        let i = choose|i: int| 0 <= i < a.len() && (#[trigger] a[i]).0 == id;
        assert(ab[i] == a[i]);
    }
    if has_product(b, id) {
        let i = choose|i: int| 0 <= i < b.len() && (#[trigger] b[i]).0 == id;
        assert(ab[i + a.len()] == b[i]);
    }
}

/// Whether some line of `lines` is of product `id`.
pub fn contains_product(lines: &Vec<CartItem>, id: &String) -> (r: bool)
    ensures
        r == has_product(lines_of(lines@), id@),
{
    let ghost ls = lines_of(lines@);
    let mut i: usize = 0;
    while i < lines.len()
        invariant
            0 <= i <= lines.len(),
            ls == lines_of(lines@),
            forall|j: int| 0 <= j < i ==> (#[trigger] ls[j]).0 != id@,
        decreases lines.len() - i,
    {
        if lines[i].product_id == *id {
            assert(ls[i as int].0 == id@);
            return true;
        }
        i = i + 1;
    }
    false
}

/// The lines of `incoming` that are not yet in a cart holding `existing`, each
/// product once (its first line), in the order of `incoming`.
pub fn new_products(existing: &Vec<CartItem>, incoming: &Vec<CartItem>) -> (r: Vec<CartItem>)
    ensures
        lines_of(r@) == fresh_lines(lines_of(existing@), lines_of(incoming@)),
{
    let ghost ex = lines_of(existing@);
    let ghost inc = lines_of(incoming@);
    let mut r: Vec<CartItem> = Vec::new();
    let mut i: usize = 0;
    while i < incoming.len()
        invariant
            0 <= i <= incoming.len(),
            ex == lines_of(existing@),
            inc == lines_of(incoming@),
            lines_of(r@) == fresh_lines(ex, inc.take(i as int)),
        decreases incoming.len() - i,
    {
        let item = &incoming[i];
        let ghost prev = lines_of(r@);
        assert(inc.take(i + 1).drop_last() =~= inc.take(i as int));
        assert(inc.take(i + 1).last() == item@);
        proof {
            lemma_has_product_concat(ex, prev, item.product_id@);
        }
        let in_cart = contains_product(existing, &item.product_id);
        let in_batch = contains_product(&r, &item.product_id);
        if !in_cart && !in_batch {
            r.push(item.duplicate());
            assert(lines_of(r@) =~= prev.push(item@));
        }
        i = i + 1;
    }
    assert(inc.take(incoming.len() as int) =~= inc);
    r
}

/// Decides the write of an add from the lines of the cart as read (`None`: no
/// cart) and the request.
pub fn plan_add(existing: Option<&Vec<CartItem>>, req: &AddToCartRequest) -> (r: AddPlan)
    ensures
        ({
            let ex = match existing {
                Some(v) => lines_of(v@),
                None => Seq::<Line>::empty(),
            };
            let fresh = fresh_lines(ex, lines_of(req.products@));
            match r {
                AddPlan::NothingToAdd => fresh.len() == 0,
                AddPlan::Append(v) => fresh.len() > 0 && lines_of(v@) == fresh,
            }
        }),
{
    let fresh = match existing {
        Some(v) => new_products(v, &req.products),
        None => {
            let empty: Vec<CartItem> = Vec::new();
            assert(lines_of(empty@) =~= Seq::<Line>::empty());
            new_products(&empty, &req.products)
        },
    };
    if fresh.len() == 0 {
        AddPlan::NothingToAdd
    } else {
        AddPlan::Append(fresh)
    }
}

/// The step that follows an append filtered by email, from the number of carts
/// that the filter matched.
pub fn after_append(matched_count: u64) -> (r: AppendStep)
    ensures
        r == (if matched_count > 0 { AppendStep::Done } else { AppendStep::InsertCart }),
{
    if matched_count > 0 {
        AppendStep::Done
    } else {
        AppendStep::InsertCart
    }
}

/// The outcome of an update or a removal, from the number of carts that it
/// matched or modified.
pub fn outcome_of_count(count: u64) -> (r: Result<(), CartError>)
    ensures
        r == (if count > 0 { Ok::<(), CartError>(()) } else { Err(CartError::NotFound) }),
{
    if count > 0 {
        Ok(())
    } else {
        Err(CartError::NotFound)
    }
}

pub(crate) proof fn lemma_fresh_unique(ex: Seq<Line>, inc: Seq<Line>)
    requires
        ids_unique(ex),
    ensures
        ids_unique(ex + fresh_lines(ex, inc)),
    decreases inc.len(),
{
    if inc.len() > 0 {
        let prev = fresh_lines(ex, inc.drop_last());
        lemma_fresh_unique(ex, inc.drop_last());
        let line = inc.last();
        if !has_product(ex + prev, line.0) {
            let s = ex + prev;
            assert(ex + prev.push(line) =~= s.push(line));
            assert forall|i: int, j: int|
                0 <= i < s.len() + 1 && 0 <= j < s.len() + 1 && i != j implies (#[trigger] s.push(
                line)[i]).0 != (#[trigger] s.push(line)[j]).0 by {
                if i == s.len() {
                    assert(s.push(line)[j] == s[j]);
                } else if j == s.len() {
                    assert(s.push(line)[i] == s[i]);
                } else {
                    assert(s.push(line)[i] == s[i]);
                    assert(s.push(line)[j] == s[j]);
                }
            }
        }
    }
}

/// Adds the lines of `req` to `cart`, the cart of `req.email` as it stands (`None`:
/// there is none). Lines whose product is already in the cart are skipped, as
/// are repeats within the request. Where nothing is left, nothing changes;
/// otherwise the lines are appended, to a new cart where there was none.
pub fn add_to_cart(cart: &mut Option<CartProduct>, req: &AddToCartRequest) -> (r: AddOutcome)
    requires
        cart_of(*old(cart), req.email@),
    ensures
        added_lines(*old(cart), req.products@).len() == 0 ==> r == AddOutcome::NothingNew
            && *final(cart) == *old(cart),
        added_lines(*old(cart), req.products@).len() > 0 ==> r == AddOutcome::Added
            && (*final(cart)) is Some && cart_lines(*final(cart)) == cart_lines(*old(cart))
            + added_lines(*old(cart), req.products@),
        cart_of(*final(cart), req.email@),
{
    let plan = match cart {
        Some(c) => plan_add(Some(&c.products), req),
        None => plan_add(None, req),
    };
    match plan {
        AddPlan::NothingToAdd => AddOutcome::NothingNew,
        AddPlan::Append(fresh) => {
            let mut fresh = fresh;
            let ghost added = lines_of(fresh@);
            proof {
                lemma_fresh_unique(cart_lines(*cart), lines_of(req.products@));
            }
            let taken = cart.take();
            match taken {
                Some(c) => {
                    let mut c = c;
                    let ghost before = c.products@;
                    c.products.append(&mut fresh);
                    assert(lines_of(c.products@) =~= lines_of(before) + added);
                    *cart = Some(c);
                },
                None => {
                    assert(Seq::<Line>::empty() + added =~= added);
                    *cart = Some(CartProduct { email: req.email.clone(), products: fresh });
                },
            }
            AddOutcome::Added
        },
    }
}

proof fn lemma_with_quantity_unique(ls: Seq<Line>, id: Seq<char>, q: u32)
    requires
        ids_unique(ls),
    ensures
        ids_unique(with_quantity(ls, id, q)),
{
    let w = with_quantity(ls, id, q);
    assert forall|i: int, j: int|
        0 <= i < w.len() && 0 <= j < w.len() && i != j implies (#[trigger] w[i]).0 != (
        #[trigger] w[j]).0 by {
        assert(w[i].0 == ls[i].0);
        assert(w[j].0 == ls[j].0);
    }
}

proof fn lemma_without_unique(ls: Seq<Line>, id: Seq<char>)
    requires
        ids_unique(ls),
    ensures
        ids_unique(without_product(ls, id)),
        forall|k: int|
            0 <= k < without_product(ls, id).len() ==> has_product(
                ls,
                (#[trigger] without_product(ls, id)[k]).0,
            ),
    decreases ls.len(),
{
    let w = without_product(ls, id);
    if ls.len() > 0 {
        let init = ls.drop_last();
        let last = ls.last();
        assert(ids_unique(init)) by {
            assert forall|i: int, j: int|
                0 <= i < init.len() && 0 <= j < init.len() && i != j implies (
                #[trigger] init[i]).0 != (#[trigger] init[j]).0 by {
                assert(init[i] == ls[i] && init[j] == ls[j]);
            }
        }
        lemma_without_unique(init, id);
        let sub = without_product(init, id);
        assert forall|k: int| 0 <= k < sub.len() implies (#[trigger] sub[k]).0 != last.0 && has_product(
            ls,
            sub[k].0,
        ) by {
            assert(has_product(init, sub[k].0));
            let m = choose|m: int| 0 <= m < init.len() && (#[trigger] init[m]).0 == sub[k].0;
            assert(ls[m] == init[m]);
            assert(ls[ls.len() - 1] == last);
        }
        if last.0 != id {
            assert(w == sub.push(last));
            assert forall|i: int, j: int|
                0 <= i < w.len() && 0 <= j < w.len() && i != j implies (#[trigger] w[i]).0 != (
                #[trigger] w[j]).0 by {
                if i == sub.len() {
                    assert(w[j] == sub[j]);
                } else if j == sub.len() {
                    assert(w[i] == sub[i]);
                } else {
                    assert(w[i] == sub[i] && w[j] == sub[j]);
                }
            }
            assert forall|i: int| 0 <= i < w.len() implies has_product(ls, (#[trigger] w[i]).0) by {
                if i < sub.len() {
                    assert(w[i] == sub[i]);
                } else {
                    assert(ls[ls.len() - 1] == last);
                }
            }
        } else {
            assert(w == sub);
        }
    }
}

/// Sets the quantity of the line of `req.product_id` in `cart`, the cart of
/// `req.email`, to `req.quantity` (zero included: the line stays). Fails with
/// `NotFound` where there is no cart or it holds no such line, and then changes
/// nothing.
pub fn update_quantity(cart: &mut Option<CartProduct>, req: &UpdateQuantityRequest) -> (r: Result<
    (),
    CartError,
>)
    requires
        owned_by(*old(cart), req.email@),
    ensures
        r is Ok <==> holds_product(*old(cart), req.product_id@),
        r is Err ==> r == Err::<(), CartError>(CartError::NotFound) && *final(cart) == *old(cart),
        r is Ok ==> (*final(cart)) is Some && cart_lines(*final(cart)) == with_quantity(
            cart_lines(*old(cart)),
            req.product_id@,
            req.quantity,
        ),
        owned_by(*final(cart), req.email@),
        cart_of(*old(cart), req.email@) ==> cart_of(*final(cart), req.email@),
{
    let found = match cart {
        Some(c) => contains_product(&c.products, &req.product_id),
        None => false,
    };
    if !found {
        return Err(CartError::NotFound);
    }
    let taken = cart.take();
    let mut c = taken.unwrap();
    let ghost ls = c.lines();
    let ghost target = with_quantity(ls, req.product_id@, req.quantity);
    let mut i: usize = 0;
    while i < c.products.len()
        invariant
            0 <= i <= c.products.len(),
            c.products.len() == ls.len(),
            c.email@ == req.email@,
            ls == cart_lines(*old(cart)),
            target == with_quantity(ls, req.product_id@, req.quantity),
            target.len() == ls.len(),
            forall|j: int| 0 <= j < i ==> (#[trigger] lines_of(c.products@)[j]) == target[j],
            forall|j: int| i <= j < ls.len() ==> (#[trigger] lines_of(c.products@)[j]) == ls[j],
        decreases c.products.len() - i,
    {
        let ghost before = c.products@;
        assert(lines_of(before)[i as int] == before[i as int]@);
        if c.products[i].product_id == req.product_id {
            let line = CartItem { product_id: req.product_id.clone(), quantity: req.quantity };
            c.products.set(i, line);
        }
        assert forall|j: int| 0 <= j < ls.len() && j != i implies (#[trigger] lines_of(
            c.products@,
        )[j]) == lines_of(before)[j] by {
            assert(c.products@[j] == before[j]);
        }
        assert(lines_of(c.products@)[i as int] == c.products@[i as int]@);
        assert(lines_of(c.products@)[i as int] == target[i as int]);
        i = i + 1;
    }
    assert(c.lines() =~= target);
    proof {
        if ids_unique(ls) {
            lemma_with_quantity_unique(ls, req.product_id@, req.quantity);
        }
    }
    *cart = Some(c);
    Ok(())
}

/// Removes every line of `req.product_id` from `cart`, the cart of `req.email`.
/// Fails with `NotFound` where there is no cart or it holds no such line, and
/// then changes nothing.
pub fn delete_cart_product(cart: &mut Option<CartProduct>, req: &DeleteProductRequest) -> (r:
    Result<(), CartError>)
    requires
        owned_by(*old(cart), req.email@),
    ensures
        r is Ok <==> holds_product(*old(cart), req.product_id@),
        r is Err ==> r == Err::<(), CartError>(CartError::NotFound) && *final(cart) == *old(cart),
        r is Ok ==> (*final(cart)) is Some && cart_lines(*final(cart)) == without_product(
            cart_lines(*old(cart)),
            req.product_id@,
        ),
        owned_by(*final(cart), req.email@),
        cart_of(*old(cart), req.email@) ==> cart_of(*final(cart), req.email@),
{
    let found = match cart {
        Some(c) => contains_product(&c.products, &req.product_id),
        None => false,
    };
    if !found {
        return Err(CartError::NotFound);
    }
    let taken = cart.take();
    let c = taken.unwrap();
    let ghost ls = c.lines();
    let mut kept: Vec<CartItem> = Vec::new();
    let mut i: usize = 0;
    while i < c.products.len()
        invariant
            0 <= i <= c.products.len(),
            ls == c.lines(),
            ls == cart_lines(*old(cart)),
            c.email@ == req.email@,
            lines_of(kept@) == without_product(ls.take(i as int), req.product_id@),
        decreases c.products.len() - i,
    {
        let ghost prev = lines_of(kept@);
        proof {
            assert(ls.take(i + 1).drop_last() =~= ls.take(i as int));
            assert(ls.take(i + 1).last() == ls[i as int]);
        }
        if c.products[i].product_id != req.product_id {
            kept.push(c.products[i].duplicate());
            assert(lines_of(kept@) =~= prev.push(ls[i as int]));
        }
        i = i + 1;
    }
    assert(ls.take(ls.len() as int) =~= ls);
    proof {
        if ids_unique(ls) {
            lemma_without_unique(ls, req.product_id@);
        }
    }
    *cart = Some(CartProduct { email: c.email, products: kept });
    Ok(())
}

/// The cart of `req.email`, as it stands; `NotFound` where there is none.
pub fn fetch_cart_details<'a>(cart: &'a Option<CartProduct>, req: &UserCartInfo) -> (r: Result<
    &'a CartProduct,
    CartError,
>)
    requires
        owned_by(*cart, req.email@),
    ensures
        match *cart {
            Some(c) => r == Ok::<&CartProduct, CartError>(&c),
            None => r == Err::<&CartProduct, CartError>(CartError::NotFound),
        },
{
    match cart {
        Some(c) => Ok(c),
        None => Err(CartError::NotFound),
    }
}

/// One request on the cart of an email.
pub enum CartRequest {
    Add(AddToCartRequest),
    UpdateQuantity(UpdateQuantityRequest),
    DeleteProduct(DeleteProductRequest),
}

impl CartRequest {
    pub open spec fn email(&self) -> Seq<char> {
        match self {
            CartRequest::Add(r) => r.email@,
            CartRequest::UpdateQuantity(r) => r.email@,
            CartRequest::DeleteProduct(r) => r.email@,
        }
    }
}

/// The lines of a cart that may be absent, or `None` for no cart.
pub open spec fn cart_state(c: Option<CartProduct>) -> Option<Seq<Line>> {
    match c {
        Some(c) => Some(c.lines()),
        None => None,
    }
}

/// The cart's lines after one request (`None`: there is no cart).
pub open spec fn step(s: Option<Seq<Line>>, req: CartRequest) -> Option<Seq<Line>> {
    match req {
        CartRequest::Add(r) => {
            let ex = match s {
                Some(l) => l,
                None => Seq::empty(),
            };
            let fresh = fresh_lines(ex, lines_of(r.products@));
            if fresh.len() == 0 {
                s
            } else {
                Some(ex + fresh)
            }
        },
        CartRequest::UpdateQuantity(r) => match s {
            Some(l) => Some(with_quantity(l, r.product_id@, r.quantity)),
            None => None,
        },
        CartRequest::DeleteProduct(r) => match s {
            Some(l) => Some(without_product(l, r.product_id@)),
            None => None,
        },
    }
}

/// The cart's lines after the requests `reqs`, in order.
pub open spec fn run(s: Option<Seq<Line>>, reqs: Seq<CartRequest>) -> Option<Seq<Line>>
    decreases reqs.len(),
{
    if reqs.len() == 0 {
        s
    } else {
        step(run(s, reqs.drop_last()), reqs.last())
    }
}

proof fn lemma_with_quantity_absent(ls: Seq<Line>, id: Seq<char>, q: u32)
    requires
        !has_product(ls, id),
    ensures
        with_quantity(ls, id, q) == ls,
{
    assert forall|j: int| 0 <= j < ls.len() implies with_quantity(ls, id, q)[j] == ls[j] by {
        assert(ls[j].0 != id);
    }
    assert(with_quantity(ls, id, q) =~= ls);
}

proof fn lemma_without_absent(ls: Seq<Line>, id: Seq<char>)
    requires
        !has_product(ls, id),
    ensures
        without_product(ls, id) == ls,
    decreases ls.len(),
{
    if ls.len() > 0 {
        let init = ls.drop_last();
        assert(!has_product(init, id)) by {
            if has_product(init, id) {
                let i = choose|i: int| 0 <= i < init.len() && (#[trigger] init[i]).0 == id;
                assert(ls[i] == init[i]);
            }
        }
        lemma_without_absent(init, id);
        assert(ls[ls.len() - 1] == ls.last());
        assert(init.push(ls.last()) =~= ls);
    }
}

/// Carries out one request on `cart`, the cart of its email.
pub fn apply_request(cart: &mut Option<CartProduct>, req: &CartRequest)
    requires
        cart_of(*old(cart), req.email()),
    ensures
        cart_of(*final(cart), req.email()),
        cart_state(*final(cart)) == step(cart_state(*old(cart)), *req),
{
    match req {
        CartRequest::Add(r) => {
            add_to_cart(cart, r);
        },
        CartRequest::UpdateQuantity(r) => {
            proof {
                if !holds_product(*cart, r.product_id@) && cart.is_some() {
                    lemma_with_quantity_absent(cart_lines(*cart), r.product_id@, r.quantity);
                }
            }
            let _ = update_quantity(cart, r);
        },
        CartRequest::DeleteProduct(r) => {
            proof {
                if !holds_product(*cart, r.product_id@) && cart.is_some() {
                    lemma_without_absent(cart_lines(*cart), r.product_id@);
                }
            }
            let _ = delete_cart_product(cart, r);
        },
    }
}

/// Carries out `reqs` in order on `cart`, the cart of `email`. What
/// `fetch_cart_details` then returns holds the lines `run` gives.
pub fn apply_requests(cart: &mut Option<CartProduct>, email: &String, reqs: &Vec<CartRequest>)
    requires
        cart_of(*old(cart), email@),
        forall|k: int| 0 <= k < reqs@.len() ==> (#[trigger] reqs@[k]).email() == email@,
    ensures
        cart_of(*final(cart), email@),
        cart_state(*final(cart)) == run(cart_state(*old(cart)), reqs@),
{
    let mut i: usize = 0;
    while i < reqs.len()
        invariant
            0 <= i <= reqs.len(),
            forall|k: int| 0 <= k < reqs@.len() ==> (#[trigger] reqs@[k]).email() == email@,
            cart_of(*cart, email@),
            cart_state(*cart) == run(cart_state(*old(cart)), reqs@.take(i as int)),
        decreases reqs.len() - i,
    {
        assert(reqs@.take(i + 1).drop_last() =~= reqs@.take(i as int));
        assert(reqs@.take(i + 1).last() == reqs@[i as int]);
        apply_request(cart, &reqs[i]);
        i = i + 1;
    }
    assert(reqs@.take(reqs.len() as int) =~= reqs@);
}

} // verus!
