use cart_service::model::{
    AddToCartRequest, CartItem, CartProduct, DeleteProductRequest, UpdateQuantityRequest,
    UserCartInfo,
};
use cart_service::service::{
    add_to_cart, after_append, apply_requests, contains_product, delete_cart_product,
    fetch_cart_details, new_products, outcome_of_count, plan_add, update_quantity, AddOutcome,
    AddPlan, AppendStep, CartError, CartRequest,
};

fn item(id: &str, q: u32) -> CartItem {
    CartItem::new(id.to_string(), q)
}

fn add_req(email: &str, items: Vec<CartItem>) -> AddToCartRequest {
    AddToCartRequest { email: email.to_string(), products: items }
}

fn update_req(email: &str, id: &str, q: u32) -> UpdateQuantityRequest {
    UpdateQuantityRequest { email: email.to_string(), product_id: id.to_string(), quantity: q }
}

fn delete_req(email: &str, id: &str) -> DeleteProductRequest {
    DeleteProductRequest { email: email.to_string(), product_id: id.to_string() }
}

fn lines(cart: &Option<CartProduct>) -> Vec<(String, u32)> {
    cart.as_ref()
        .unwrap()
        .products
        .iter()
        .map(|i| (i.product_id.clone(), i.quantity))
        .collect()
}

fn pairs(v: &[(&str, u32)]) -> Vec<(String, u32)> {
    v.iter().map(|(s, q)| (s.to_string(), *q)).collect()
}

#[test]
fn scenario_add_merge_update_delete_fetch() {
    let mut cart: Option<CartProduct> = None;
    assert_eq!(add_to_cart(&mut cart, &add_req("e1", vec![item("A", 2)])), AddOutcome::Added);
    assert_eq!(lines(&cart), pairs(&[("A", 2)]));
    assert_eq!(
        add_to_cart(&mut cart, &add_req("e1", vec![item("A", 5), item("B", 1)])),
        AddOutcome::Added
    );
    assert_eq!(lines(&cart), pairs(&[("A", 2), ("B", 1)]));
    assert_eq!(update_quantity(&mut cart, &update_req("e1", "A", 9)), Ok(()));
    assert_eq!(lines(&cart), pairs(&[("A", 9), ("B", 1)]));
    assert_eq!(delete_cart_product(&mut cart, &delete_req("e1", "A")), Ok(()));
    assert_eq!(lines(&cart), pairs(&[("B", 1)]));
    let fetched = fetch_cart_details(&cart, &UserCartInfo { email: "e1".to_string() }).unwrap();
    assert_eq!(fetched.email, "e1");
    assert_eq!(fetched.products.len(), 1);
    assert_eq!(fetched.products[0].product_id, "B");
    assert_eq!(fetched.products[0].quantity, 1);
}

#[test]
fn adding_twice_is_a_noop() {
    let mut cart: Option<CartProduct> = None;
    let req = add_req("u@x", vec![item("P", 3)]);
    assert_eq!(add_to_cart(&mut cart, &req), AddOutcome::Added);
    assert_eq!(add_to_cart(&mut cart, &req), AddOutcome::NothingNew);
    assert_eq!(lines(&cart), pairs(&[("P", 3)]));
}

#[test]
fn add_creates_cart_with_deduplicated_lines() {
    let mut cart: Option<CartProduct> = None;
    let req = add_req("u@x", vec![item("P", 1), item("Q", 2), item("P", 7)]);
    assert_eq!(add_to_cart(&mut cart, &req), AddOutcome::Added);
    assert_eq!(cart.as_ref().unwrap().email, "u@x");
    assert_eq!(lines(&cart), pairs(&[("P", 1), ("Q", 2)]));
}

#[test]
fn empty_add_on_missing_cart_creates_nothing() {
    let mut cart: Option<CartProduct> = None;
    assert_eq!(add_to_cart(&mut cart, &add_req("u@x", vec![])), AddOutcome::NothingNew);
    assert!(cart.is_none());
}

#[test]
fn add_merge_keeps_existing_quantities() {
    let mut cart = Some(CartProduct {
        email: "m@x".to_string(),
        products: vec![item("A", 4), item("C", 6)],
    });
    let req = add_req("m@x", vec![item("C", 1), item("D", 2), item("A", 9)]);
    assert_eq!(add_to_cart(&mut cart, &req), AddOutcome::Added);
    assert_eq!(lines(&cart), pairs(&[("A", 4), ("C", 6), ("D", 2)]));
}

#[test]
fn update_changes_only_target_and_accepts_zero() {
    let mut cart = Some(CartProduct {
        email: "t@x".to_string(),
        products: vec![item("A", 4), item("B", 5), item("C", 6)],
    });
    assert_eq!(update_quantity(&mut cart, &update_req("t@x", "B", 0)), Ok(()));
    assert_eq!(lines(&cart), pairs(&[("A", 4), ("B", 0), ("C", 6)]));
}

#[test]
fn not_found_is_the_same_for_missing_cart_and_missing_product() {
    let mut none: Option<CartProduct> = None;
    assert_eq!(update_quantity(&mut none, &update_req("n@x", "A", 1)), Err(CartError::NotFound));
    assert_eq!(delete_cart_product(&mut none, &delete_req("n@x", "A")), Err(CartError::NotFound));
    assert!(none.is_none());
    let mut cart = Some(CartProduct { email: "n@x".to_string(), products: vec![item("B", 2)] });
    assert_eq!(update_quantity(&mut cart, &update_req("n@x", "A", 1)), Err(CartError::NotFound));
    assert_eq!(delete_cart_product(&mut cart, &delete_req("n@x", "A")), Err(CartError::NotFound));
    assert_eq!(lines(&cart), pairs(&[("B", 2)]));
}

#[test]
fn delete_removes_every_matching_line() {
    let mut cart = Some(CartProduct {
        email: "d@x".to_string(),
        products: vec![item("A", 1), item("B", 2), item("A", 3)],
    });
    assert_eq!(delete_cart_product(&mut cart, &delete_req("d@x", "A")), Ok(()));
    assert_eq!(lines(&cart), pairs(&[("B", 2)]));
    assert_eq!(delete_cart_product(&mut cart, &delete_req("d@x", "A")), Err(CartError::NotFound));
}

#[test]
fn delete_last_line_leaves_empty_cart() {
    let mut cart = Some(CartProduct { email: "z@x".to_string(), products: vec![item("A", 1)] });
    assert_eq!(delete_cart_product(&mut cart, &delete_req("z@x", "A")), Ok(()));
    assert!(cart.as_ref().unwrap().products.is_empty());
    let fetched = fetch_cart_details(&cart, &UserCartInfo { email: "z@x".to_string() });
    assert!(fetched.is_ok());
}

#[test]
fn fetch_missing_cart_is_not_found() {
    let cart: Option<CartProduct> = None;
    let r = fetch_cart_details(&cart, &UserCartInfo { email: "q@x".to_string() });
    assert_eq!(r.err(), Some(CartError::NotFound));
}

#[test]
fn fetch_after_sequence_reflects_net_effect() {
    let mut cart: Option<CartProduct> = None;
    let reqs = vec![
        CartRequest::Add(add_req("s@x", vec![item("A", 2)])),
        CartRequest::Add(add_req("s@x", vec![item("A", 5), item("B", 1), item("C", 8)])),
        CartRequest::UpdateQuantity(update_req("s@x", "C", 3)),
        CartRequest::DeleteProduct(delete_req("s@x", "A")),
        CartRequest::UpdateQuantity(update_req("s@x", "A", 4)),
        CartRequest::Add(add_req("s@x", vec![item("A", 7)])),
    ];
    apply_requests(&mut cart, &"s@x".to_string(), &reqs);
    let fetched = fetch_cart_details(&cart, &UserCartInfo { email: "s@x".to_string() }).unwrap();
    let got: Vec<(String, u32)> =
        fetched.products.iter().map(|i| (i.product_id.clone(), i.quantity)).collect();
    assert_eq!(got, pairs(&[("B", 1), ("C", 3), ("A", 7)]));
}

#[test]
fn new_products_skips_existing_and_repeats() {
    let existing = vec![item("A", 1)];
    let incoming = vec![item("A", 2), item("B", 3), item("B", 4), item("C", 5)];
    let r = new_products(&existing, &incoming);
    let got: Vec<(String, u32)> = r.iter().map(|i| (i.product_id.clone(), i.quantity)).collect();
    assert_eq!(got, pairs(&[("B", 3), ("C", 5)]));
}

#[test]
fn contains_product_compares_exactly() {
    let ls = vec![item("abc", 1)];
    assert!(contains_product(&ls, &"abc".to_string()));
    assert!(!contains_product(&ls, &"ab".to_string()));
    assert!(!contains_product(&ls, &"ABC".to_string()));
}

#[test]
fn plan_add_decides_the_write() {
    let existing = vec![item("A", 1)];
    match plan_add(Some(&existing), &add_req("p@x", vec![item("A", 9)])) {
        AddPlan::NothingToAdd => {}
        AddPlan::Append(_) => panic!("expected nothing to add"),
    }
    match plan_add(None, &add_req("p@x", vec![item("A", 9)])) {
        AddPlan::Append(v) => {
            assert_eq!(v.len(), 1);
            assert_eq!(v[0].product_id, "A");
            assert_eq!(v[0].quantity, 9);
        }
        AddPlan::NothingToAdd => panic!("expected an append"),
    }
}

#[test]
fn store_counts_map_to_outcomes() {
    assert_eq!(after_append(1), AppendStep::Done);
    assert_eq!(after_append(0), AppendStep::InsertCart);
    assert_eq!(outcome_of_count(2), Ok(()));
    assert_eq!(outcome_of_count(0), Err(CartError::NotFound));
}

#[test]
fn large_quantity_is_stored_verbatim() {
    let mut cart: Option<CartProduct> = None;
    add_to_cart(&mut cart, &add_req("b@x", vec![item("A", u32::MAX)]));
    assert_eq!(lines(&cart), pairs(&[("A", u32::MAX)]));
}
