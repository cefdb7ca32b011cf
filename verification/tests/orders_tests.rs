use order_backend::auth::AuthContext;
use order_backend::error::AppError;
use order_backend::orders::create_order;
use order_backend::orders::delete_order;
use order_backend::orders::list_orders;
use order_backend::orders::update_order;
use order_backend::orders::CreateOrderRequest;
use order_backend::orders::ListOrdersQuery;
use order_backend::orders::UpdateOrderRequest;
use order_backend::store::Store;

fn sample_request(tag: &str) -> CreateOrderRequest {
    CreateOrderRequest {
        customer_name: format!("customer {}", tag),
        phone: "555-0100".to_string(),
        prescription: format!("OD -1.25 OS -1.50 ({})", tag),
        frame_type: "full rim".to_string(),
        lens_type: "single vision".to_string(),
        total_amount_cents: 12999,
        status: "pending".to_string(),
    }
}

fn empty_update() -> UpdateOrderRequest {
    UpdateOrderRequest {
        customer_name: None,
        phone: None,
        prescription: None,
        frame_type: None,
        lens_type: None,
        total_amount_cents: None,
        status: None,
    }
}

fn query(page: Option<u64>, page_size: Option<u64>) -> ListOrdersQuery {
    ListOrdersQuery { page, page_size }
}

#[test]
fn create_then_list_round_trip() {
    let mut store = Store::new();
    let auth = AuthContext { user_id: 1 };
    let created = create_order(&mut store, &auth, sample_request("a"), 1000);
    let listed = list_orders(&store, &auth, &query(None, None)).unwrap();
    assert_eq!(listed.total, 1);
    assert_eq!(listed.items.len(), 1);
    let item = &listed.items[0];
    assert_eq!(item.id, created.id);
    assert_eq!(item.customer_name, "customer a");
    assert_eq!(item.phone, "555-0100");
    assert_eq!(item.prescription, "OD -1.25 OS -1.50 (a)");
    assert_eq!(item.frame_type, "full rim");
    assert_eq!(item.lens_type, "single vision");
    assert_eq!(item.total_amount_cents, 12999);
    assert_eq!(item.status, "pending");
    assert_eq!(item.created_at, 1000);
    assert_eq!(item.updated_at, 1000);
}

#[test]
fn owner_isolation() {
    let mut store = Store::new();
    let alice = AuthContext { user_id: 1 };
    let mallory = AuthContext { user_id: 2 };
    let created = create_order(&mut store, &alice, sample_request("a"), 1000);

    let listed = list_orders(&store, &mallory, &query(None, None)).unwrap();
    assert_eq!(listed.total, 0);
    assert_eq!(listed.items.len(), 0);

    let mut upd = empty_update();
    upd.status = Some("done".to_string());
    match update_order(&mut store, &mallory, created.id, upd, 2000) {
        Err(AppError::NotFound(m)) => assert_eq!(m, "Order not found"),
        _ => panic!("a foreign order must look nonexistent"),
    }
    match delete_order(&mut store, &mallory, created.id) {
        Err(AppError::NotFound(m)) => assert_eq!(m, "Order not found"),
        _ => panic!("a foreign order must look nonexistent"),
    }

    let listed = list_orders(&store, &alice, &query(None, None)).unwrap();
    assert_eq!(listed.total, 1);
    assert_eq!(listed.items[0].status, "pending");
}

#[test]
fn partial_update_status_only() {
    let mut store = Store::new();
    let auth = AuthContext { user_id: 1 };
    let created = create_order(&mut store, &auth, sample_request("a"), 1000);
    let mut upd = empty_update();
    upd.status = Some("delivered".to_string());
    let updated = update_order(&mut store, &auth, created.id, upd, 2000).unwrap();
    assert_eq!(updated.id, created.id);
    assert_eq!(updated.customer_name, created.customer_name);
    assert_eq!(updated.phone, created.phone);
    assert_eq!(updated.prescription, created.prescription);
    assert_eq!(updated.frame_type, created.frame_type);
    assert_eq!(updated.lens_type, created.lens_type);
    assert_eq!(updated.total_amount_cents, created.total_amount_cents);
    assert_eq!(updated.status, "delivered");
    assert_eq!(updated.created_at, 1000);
    assert_eq!(updated.updated_at, 2000);
    assert!(updated.updated_at > created.updated_at);
}

#[test]
fn update_several_fields() {
    let mut store = Store::new();
    let auth = AuthContext { user_id: 1 };
    let created = create_order(&mut store, &auth, sample_request("a"), 1000);
    let mut upd = empty_update();
    upd.phone = Some("555-0199".to_string());
    upd.total_amount_cents = Some(5000);
    let updated = update_order(&mut store, &auth, created.id, upd, 3000).unwrap();
    assert_eq!(updated.phone, "555-0199");
    assert_eq!(updated.total_amount_cents, 5000);
    assert_eq!(updated.customer_name, created.customer_name);
    assert_eq!(updated.status, "pending");
    assert_eq!(updated.updated_at, 3000);
}

#[test]
fn update_missing_order_not_found() {
    let mut store = Store::new();
    let auth = AuthContext { user_id: 1 };
    match update_order(&mut store, &auth, 99, empty_update(), 1000) {
        Err(AppError::NotFound(m)) => assert_eq!(m, "Order not found"),
        _ => panic!("expected not-found"),
    }
}

#[test]
fn delete_removes_the_order() {
    let mut store = Store::new();
    let auth = AuthContext { user_id: 1 };
    let first = create_order(&mut store, &auth, sample_request("a"), 1000);
    create_order(&mut store, &auth, sample_request("b"), 2000);
    delete_order(&mut store, &auth, first.id).unwrap();
    let listed = list_orders(&store, &auth, &query(None, None)).unwrap();
    assert_eq!(listed.total, 1);
    assert_eq!(listed.items[0].customer_name, "customer b");
    assert!(delete_order(&mut store, &auth, first.id).is_err());
}

#[test]
fn listing_is_newest_first() {
    let mut store = Store::new();
    let auth = AuthContext { user_id: 1 };
    create_order(&mut store, &auth, sample_request("a"), 1000);
    create_order(&mut store, &auth, sample_request("c"), 3000);
    create_order(&mut store, &auth, sample_request("b"), 2000);
    let listed = list_orders(&store, &auth, &query(None, None)).unwrap();
    assert_eq!(listed.items.len(), 3);
    assert_eq!(listed.items[0].customer_name, "customer c");
    assert_eq!(listed.items[1].customer_name, "customer b");
    assert_eq!(listed.items[2].customer_name, "customer a");
}

#[test]
fn listing_breaks_created_at_ties_by_newer_id() {
    let mut store = Store::new();
    let auth = AuthContext { user_id: 1 };
    let first = create_order(&mut store, &auth, sample_request("a"), 1000);
    let second = create_order(&mut store, &auth, sample_request("b"), 1000);
    let listed = list_orders(&store, &auth, &query(None, None)).unwrap();
    assert_eq!(listed.items[0].id, second.id);
    assert_eq!(listed.items[1].id, first.id);
}

#[test]
fn pagination_last_page_holds_the_remainder() {
    let mut store = Store::new();
    let auth = AuthContext { user_id: 1 };
    for k in 0..5u64 {
        create_order(&mut store, &auth, sample_request(&k.to_string()), 1000 + k);
    }
    let page3 = list_orders(&store, &auth, &query(Some(3), Some(2))).unwrap();
    assert_eq!(page3.total, 5);
    assert_eq!(page3.items.len(), 1);
    assert_eq!(page3.items[0].customer_name, "customer 0");
    let page1 = list_orders(&store, &auth, &query(Some(1), Some(2))).unwrap();
    assert_eq!(page1.total, 5);
    assert_eq!(page1.items.len(), 2);
    assert_eq!(page1.items[0].customer_name, "customer 4");
}

#[test]
fn pagination_exact_division_fills_the_last_page() {
    let mut store = Store::new();
    let auth = AuthContext { user_id: 1 };
    for k in 0..4u64 {
        create_order(&mut store, &auth, sample_request(&k.to_string()), 1000 + k);
    }
    let page2 = list_orders(&store, &auth, &query(Some(2), Some(2))).unwrap();
    assert_eq!(page2.total, 4);
    assert_eq!(page2.items.len(), 2);
}

#[test]
fn page_past_the_end_is_empty() {
    let mut store = Store::new();
    let auth = AuthContext { user_id: 1 };
    create_order(&mut store, &auth, sample_request("a"), 1000);
    let page9 = list_orders(&store, &auth, &query(Some(9), Some(10))).unwrap();
    assert_eq!(page9.total, 1);
    assert_eq!(page9.items.len(), 0);
}

#[test]
fn zero_pagination_is_rejected() {
    let store = Store::new();
    let auth = AuthContext { user_id: 1 };
    match list_orders(&store, &auth, &query(Some(0), None)) {
        Err(AppError::ValidationError(m)) => assert_eq!(m, "Invalid pagination parameters"),
        _ => panic!("expected a validation error"),
    }
    match list_orders(&store, &auth, &query(None, Some(0))) {
        Err(AppError::ValidationError(m)) => assert_eq!(m, "Invalid pagination parameters"),
        _ => panic!("expected a validation error"),
    }
}
