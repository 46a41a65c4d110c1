use vstd::prelude::*;

verus! {

/// One line of a cart, seen as its product id and its quantity.
pub type Line = (Seq<char>, u32);

/// One product line of a cart.
pub struct CartItem {
    pub product_id: String,
    pub quantity: u32,
}

impl View for CartItem {
    type V = Line;

    open spec fn view(&self) -> Line {
        (self.product_id@, self.quantity)
    }
}

impl CartItem {
    pub fn new(product_id: String, quantity: u32) -> (r: CartItem)
        ensures
            r.product_id@ == product_id@,
            r.quantity == quantity,
    {
        CartItem { product_id, quantity }
    }

    /// A copy of this line.
    pub fn duplicate(&self) -> (r: CartItem)
        ensures
            r@ == self@,
    {
        CartItem { product_id: self.product_id.clone(), quantity: self.quantity }
    }
}

/// The cart document of one user: its owner's email and its lines, in order.
pub struct CartProduct {
    pub email: String,
    pub products: Vec<CartItem>,
}

impl CartProduct {
    /// The lines of this cart as values.
    pub open spec fn lines(&self) -> Seq<Line> {
        lines_of(self.products@)
    }

    /// A well-formed cart holds each product id at most once.
    pub open spec fn wf(&self) -> bool {
        ids_unique(self.lines())
    }
}

/// Body of a request that adds lines to the cart of `email`.
pub struct AddToCartRequest {
    pub email: String,
    pub products: Vec<CartItem>,
}

/// Body of a request that names the cart of `email`.
pub struct UserCartInfo {
    pub email: String,
}

/// Body of a request that sets the quantity of one line.
pub struct UpdateQuantityRequest {
    pub email: String,
    pub product_id: String,
    pub quantity: u32,
}

/// Body of a request that removes one product from a cart.
pub struct DeleteProductRequest {
    pub email: String,
    pub product_id: String,
}

pub open spec fn lines_of(items: Seq<CartItem>) -> Seq<Line> {
    items.map_values(|i: CartItem| i@)
}

/// Whether some line of `lines` has product id `id`.
pub open spec fn has_product(lines: Seq<Line>, id: Seq<char>) -> bool {
    exists|i: int| 0 <= i < lines.len() && (#[trigger] lines[i]).0 == id
}

/// No two lines share a product id.
pub open spec fn ids_unique(lines: Seq<Line>) -> bool {
    forall|i: int, j: int|
        0 <= i < lines.len() && 0 <= j < lines.len() && i != j ==> (#[trigger] lines[i]).0
            != (#[trigger] lines[j]).0
}

/// The lines of `incoming` that an add appends to a cart holding `existing`:
/// those whose product id is neither in `existing` nor on an earlier line of
/// `incoming`, in their order.
pub open spec fn fresh_lines(existing: Seq<Line>, incoming: Seq<Line>) -> Seq<Line>
    decreases incoming.len(),
{
    if incoming.len() == 0 {
        Seq::empty()
    } else {
        let prev = fresh_lines(existing, incoming.drop_last());
        let line = incoming.last();
        if has_product(existing + prev, line.0) {
            prev
        } else {
            prev.push(line)
        }
    }
}

/// `lines` with the quantity of every line of product `id` set to `q`.
pub open spec fn with_quantity(lines: Seq<Line>, id: Seq<char>, q: u32) -> Seq<Line> {
    lines.map_values(|l: Line| if l.0 == id { (l.0, q) } else { l })
}

/// `lines` without any line of product `id`, the others in their order.
pub open spec fn without_product(lines: Seq<Line>, id: Seq<char>) -> Seq<Line>
    decreases lines.len(),
{
    if lines.len() == 0 {
        Seq::empty()
    } else {
        let rest = without_product(lines.drop_last(), id);
        if lines.last().0 == id {
            rest
        } else {
            rest.push(lines.last())
        }
    }
}

} // verus!
