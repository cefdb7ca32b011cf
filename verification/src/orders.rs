use vstd::prelude::*;

use crate::auth::AuthContext;
use crate::error::AppError;
use crate::store::OrderRecord;
use crate::store::Store;

verus! {

/// A new order; every field is required.  The decimal amount arrives in
/// minor units.
#[derive(Debug)]
pub struct CreateOrderRequest {
    pub customer_name: String,
    pub phone: String,
    pub prescription: String,
    pub frame_type: String,
    pub lens_type: String,
    pub total_amount_cents: u64,
    pub status: String,
}

/// A partial update; only the fields that are present change.
#[derive(Debug)]
pub struct UpdateOrderRequest {
    pub customer_name: Option<String>,
    pub phone: Option<String>,
    pub prescription: Option<String>,
    pub frame_type: Option<String>,
    pub lens_type: Option<String>,
    pub total_amount_cents: Option<u64>,
    pub status: Option<String>,
}

/// Pagination parameters; `page` defaults to 1 (1-indexed) and
/// `page_size` to 10.
#[derive(Debug)]
pub struct ListOrdersQuery {
    pub page: Option<u64>,
    pub page_size: Option<u64>,
}

/// The representation of one order as it is returned to the client.
#[derive(Debug)]
pub struct OrderResponse {
    pub id: i32,
    pub customer_name: String,
    pub phone: String,
    pub prescription: String,
    pub frame_type: String,
    pub lens_type: String,
    pub total_amount_cents: u64,
    pub status: String,
    pub created_at: u64,
    pub updated_at: u64,
}

/// One page of orders, together with the full count of the caller's
/// orders regardless of the page.
#[derive(Debug)]
pub struct ListOrdersResponse {
    pub items: Vec<OrderResponse>,
    pub total: u64,
}

pub open spec fn order_not_found_msg() -> Seq<char> {
    "Order not found"@
}

pub open spec fn invalid_pagination_msg() -> Seq<char> {
    "Invalid pagination parameters"@
}

/// `r` is the client representation of the row `o`.
pub open spec fn is_response_of(o: OrderRecord, r: OrderResponse) -> bool {
    &&& r.id == o.id
    &&& r.customer_name@ == o.customer_name@
    &&& r.phone@ == o.phone@
    &&& r.prescription@ == o.prescription@
    &&& r.frame_type@ == o.frame_type@
    &&& r.lens_type@ == o.lens_type@
    &&& r.total_amount_cents == o.total_amount_cents
    &&& r.status@ == o.status@
    &&& r.created_at == o.created_at
    &&& r.updated_at == o.updated_at
}

fn response_of(o: &OrderRecord) -> (r: OrderResponse)
    ensures
        is_response_of(*o, r),
{
    OrderResponse {
        id: o.id,
        customer_name: o.customer_name.clone(),
        phone: o.phone.clone(),
        prescription: o.prescription.clone(),
        frame_type: o.frame_type.clone(),
        lens_type: o.lens_type.clone(),
        total_amount_cents: o.total_amount_cents,
        status: o.status.clone(),
        created_at: o.created_at,
        updated_at: o.updated_at,
    }
}

/// `rec` is the row that creating `req` as `user_id` at time `now` under
/// the id `id` inserts: the request's fields, the caller's identity as
/// owner, and both timestamps set to `now`.
pub open spec fn created_record(
    rec: OrderRecord,
    req: CreateOrderRequest,
    user_id: i32,
    id: i32,
    now: u64,
) -> bool {
    &&& rec.id == id
    &&& rec.customer_name@ == req.customer_name@
    &&& rec.phone@ == req.phone@
    &&& rec.prescription@ == req.prescription@
    &&& rec.frame_type@ == req.frame_type@
    &&& rec.lens_type@ == req.lens_type@
    &&& rec.total_amount_cents == req.total_amount_cents
    &&& rec.status@ == req.status@
    &&& rec.created_by == user_id
    &&& rec.created_at == now
    &&& rec.updated_at == now
}

/// `r` is `o` with exactly the fields present in `req` replaced and the
/// update timestamp refreshed; identity, owner and creation time never
/// change.
pub open spec fn updated_record(
    o: OrderRecord,
    req: UpdateOrderRequest,
    now: u64,
    r: OrderRecord,
) -> bool {
    &&& r.id == o.id
    &&& r.created_by == o.created_by
    &&& r.created_at == o.created_at
    &&& r.updated_at == now
    &&& r.customer_name@ == if req.customer_name is Some {
        req.customer_name.unwrap()@
    } else {
        o.customer_name@
    }
    &&& r.phone@ == if req.phone is Some {
        req.phone.unwrap()@
    } else {
        o.phone@
    }
    &&& r.prescription@ == if req.prescription is Some {
        req.prescription.unwrap()@
    } else {
        o.prescription@
    }
    &&& r.frame_type@ == if req.frame_type is Some {
        req.frame_type.unwrap()@
    } else {
        o.frame_type@
    }
    &&& r.lens_type@ == if req.lens_type is Some {
        req.lens_type.unwrap()@
    } else {
        o.lens_type@
    }
    &&& r.total_amount_cents == if req.total_amount_cents is Some {
        req.total_amount_cents.unwrap()
    } else {
        o.total_amount_cents
    }
    &&& r.status@ == if req.status is Some {
        req.status.unwrap()@
    } else {
        o.status@
    }
}

/// There is a row with this id owned by this user.  An order owned by
/// someone else is indistinguishable from a nonexistent one.
pub open spec fn owned_order_found(orders: Seq<OrderRecord>, user_id: i32, id: i32) -> bool {
    exists|i: int|
        0 <= i < orders.len() && (#[trigger] orders[i]).id == id && orders[i].created_by == user_id
}

/// The position of that row; well defined when the store is well formed,
/// since ids are unique.
pub open spec fn owned_order_at(orders: Seq<OrderRecord>, user_id: i32, id: i32) -> int {
    choose|i: int|
        0 <= i < orders.len() && (#[trigger] orders[i]).id == id && orders[i].created_by == user_id
}

fn find_owned(store: &Store, user_id: i32, id: i32) -> (r: Option<usize>)
    requires
        store.wf(),
    ensures
        match r {
            Some(i) => i < store.orders@.len() && store.orders@[i as int].id == id
                && store.orders@[i as int].created_by == user_id && i as int == owned_order_at(
                store.orders@,
                user_id,
                id,
            ),
            None => !owned_order_found(store.orders@, user_id, id),
        },
{
    let n = store.orders.len();
    let mut i: usize = 0;
    while i < n
        invariant
            0 <= i <= n,
            n == store.orders@.len(),
            store.wf(),
            forall|j: int|
                0 <= j < i ==> !((#[trigger] store.orders@[j]).id == id && store.orders@[j].created_by
                    == user_id),
        decreases n - i,
    {
        if store.orders[i].id == id && store.orders[i].created_by == user_id {
            proof {
                assert(owned_order_found(store.orders@, user_id, id));
                let k = owned_order_at(store.orders@, user_id, id);
                assert(store.orders@[k].id == id);
                assert(k == i as int);
            }
            return Some(i);
        }
        i = i + 1;
    }
    None
}

/// Inserts a new order owned by the caller: the request's fields, a
/// fresh id from the counter, and both timestamps set to `now`.
pub fn create_order(store: &mut Store, auth: &AuthContext, req: CreateOrderRequest, now: u64) -> (r:
    OrderResponse)
    requires
        old(store).wf(),
        old(store).next_order_id < i32::MAX,
    ensures
        final(store).wf(),
        final(store).users@ == old(store).users@,
        final(store).next_order_id == old(store).next_order_id + 1,
        final(store).orders@.len() == old(store).orders@.len() + 1,
        forall|j: int|
            0 <= j < old(store).orders@.len() ==> final(store).orders@[j] == old(store).orders@[j],
        created_record(
            final(store).orders@.last(),
            req,
            auth.user_id,
            old(store).next_order_id,
            now,
        ),
        is_response_of(final(store).orders@.last(), r),
{
    let id = store.next_order_id;
    store.next_order_id = store.next_order_id + 1;
    let rec = OrderRecord {
        id,
        customer_name: req.customer_name,
        phone: req.phone,
        prescription: req.prescription,
        frame_type: req.frame_type,
        lens_type: req.lens_type,
        total_amount_cents: req.total_amount_cents,
        status: req.status,
        created_by: auth.user_id,
        created_at: now,
        updated_at: now,
    };
    let resp = response_of(&rec);
    store.orders.push(rec);
    proof {
        assert forall|i: int, j: int| 0 <= i < j < store.orders@.len() implies (
        #[trigger] store.orders@[i]).id != (#[trigger] store.orders@[j]).id by {
            if j == store.orders@.len() - 1 {
                assert(store.orders@[i].id < id);
            }
        }
    }
    resp
}

/// Fetches by id under the owner filter and applies the fields present
/// in the request, always refreshing `updated_at`; a missing or foreign
/// order yields not-found and leaves the store unchanged.
pub fn update_order(
    store: &mut Store,
    auth: &AuthContext,
    id: i32,
    req: UpdateOrderRequest,
    now: u64,
) -> (r: Result<OrderResponse, AppError>)
    requires
        old(store).wf(),
    ensures
        final(store).wf(),
        final(store).users@ == old(store).users@,
        final(store).next_order_id == old(store).next_order_id,
        !owned_order_found(old(store).orders@, auth.user_id, id) ==> (r matches Err(e) && e
            matches AppError::NotFound(m) && m@ == order_not_found_msg() && final(store).orders@
            == old(store).orders@),
        owned_order_found(old(store).orders@, auth.user_id, id) ==> ({
            let at = owned_order_at(old(store).orders@, auth.user_id, id);
            &&& final(store).orders@.len() == old(store).orders@.len()
            &&& forall|j: int|
                0 <= j < old(store).orders@.len() && j != at ==> final(store).orders@[j] == old(
                store,
            ).orders@[j]
            &&& updated_record(old(store).orders@[at], req, now, final(store).orders@[at])
            &&& (r matches Ok(resp) && is_response_of(final(store).orders@[at], resp))
        }),
{
    let at = match find_owned(store, auth.user_id, id) {
        Some(i) => i,
        None => return Err(AppError::NotFound("Order not found".to_owned())),
    };
    let old_rec = store.orders[at].clone();
    let new_rec = OrderRecord {
        id: old_rec.id,
        customer_name: match req.customer_name {
            Some(s) => s,
            None => old_rec.customer_name,
        },
        phone: match req.phone {
            Some(s) => s,
            None => old_rec.phone,
        },
        prescription: match req.prescription {
            Some(s) => s,
            None => old_rec.prescription,
        },
        frame_type: match req.frame_type {
            Some(s) => s,
            None => old_rec.frame_type,
        },
        lens_type: match req.lens_type {
            Some(s) => s,
            None => old_rec.lens_type,
        },
        total_amount_cents: match req.total_amount_cents {
            Some(v) => v,
            None => old_rec.total_amount_cents,
        },
        status: match req.status {
            Some(s) => s,
            None => old_rec.status,
        },
        created_by: old_rec.created_by,
        created_at: old_rec.created_at,
        updated_at: now,
    };
    let resp = response_of(&new_rec);
    store.orders[at] = new_rec;
    Ok(resp)
}

/// Fetches by id under the owner filter and removes the row; a missing
/// or foreign order yields not-found and leaves the store unchanged.
pub fn delete_order(store: &mut Store, auth: &AuthContext, id: i32) -> (r: Result<(), AppError>)
    requires
        old(store).wf(),
    ensures
        final(store).wf(),
        final(store).users@ == old(store).users@,
        final(store).next_order_id == old(store).next_order_id,
        !owned_order_found(old(store).orders@, auth.user_id, id) ==> (r matches Err(e) && e
            matches AppError::NotFound(m) && m@ == order_not_found_msg() && final(store).orders@
            == old(store).orders@),
        owned_order_found(old(store).orders@, auth.user_id, id) ==> (r is Ok && final(store).orders@
            == old(store).orders@.remove(
            owned_order_at(old(store).orders@, auth.user_id, id),
        )),
{
    let at = match find_owned(store, auth.user_id, id) {
        Some(i) => i,
        None => return Err(AppError::NotFound("Order not found".to_owned())),
    };
    store.orders.remove(at);
    proof {
        assert forall|i: int, j: int| 0 <= i < j < store.orders@.len() implies (
        #[trigger] store.orders@[i]).id != (#[trigger] store.orders@[j]).id by {
            assert(store.orders@[i] == if i < at as int {
                old(store).orders@[i]
            } else {
                old(store).orders@[i + 1]
            });
            assert(store.orders@[j] == if j < at as int {
                old(store).orders@[j]
            } else {
                old(store).orders@[j + 1]
            });
        }
        assert forall|i: int| 0 <= i < store.orders@.len() implies (
        #[trigger] store.orders@[i]).id < store.next_order_id by {
            assert(store.orders@[i] == if i < at as int {
                old(store).orders@[i]
            } else {
                old(store).orders@[i + 1]
            });
        }
    }
    Ok(())
}

/// The listing order: newest creation time first, and among orders
/// created in the same second the higher (younger) id first.
pub open spec fn listed_before(a: OrderRecord, b: OrderRecord) -> bool {
    a.created_at > b.created_at || (a.created_at == b.created_at && a.id > b.id)
}

/// `x` placed in front of the first element it is listed before.
pub open spec fn insert_newest_first(s: Seq<OrderRecord>, x: OrderRecord) -> Seq<OrderRecord>
    decreases s.len(),
{
    if s.len() == 0 {
        seq![x]
    } else if listed_before(x, s[0]) {
        seq![x] + s
    } else {
        seq![s[0]] + insert_newest_first(s.skip(1), x)
    }
}

/// The rows rearranged into listing order, by insertion.
pub open spec fn sort_newest_first(s: Seq<OrderRecord>) -> Seq<OrderRecord>
    decreases s.len(),
{
    if s.len() == 0 {
        Seq::empty()
    } else {
        insert_newest_first(sort_newest_first(s.drop_last()), s.last())
    }
}

/// The rows that pass the owner filter, in table order.
pub open spec fn owned_orders(s: Seq<OrderRecord>, user_id: i32) -> Seq<OrderRecord>
    decreases s.len(),
{
    if s.len() == 0 {
        Seq::empty()
    } else if s.last().created_by == user_id {
        owned_orders(s.drop_last(), user_id).push(s.last())
    } else {
        owned_orders(s.drop_last(), user_id)
    }
}

pub proof fn lemma_insert_newest_first_len(s: Seq<OrderRecord>, x: OrderRecord)
    ensures
        insert_newest_first(s, x).len() == s.len() + 1,
    decreases s.len(),
{
    if s.len() > 0 && !listed_before(x, s[0]) {
        lemma_insert_newest_first_len(s.skip(1), x);
    }
}

/// Sorting rearranges the rows; it neither drops nor adds one.
pub proof fn lemma_sort_newest_first_len(s: Seq<OrderRecord>)
    ensures
        sort_newest_first(s).len() == s.len(),
    decreases s.len(),
{
    if s.len() > 0 {
        lemma_sort_newest_first_len(s.drop_last());
        lemma_insert_newest_first_len(sort_newest_first(s.drop_last()), s.last());
    }
}

proof fn lemma_insert_newest_first_contains(s: Seq<OrderRecord>, x: OrderRecord, y: OrderRecord)
    ensures
        insert_newest_first(s, x).contains(y) <==> (s.contains(y) || y == x),
    decreases s.len(),
{
    let r = insert_newest_first(s, x);
    if s.len() == 0 {
        assert(r =~= seq![x]);
        if r.contains(y) {
            let i = choose|i: int| 0 <= i < r.len() && r[i] == y;
            assert(y == x);
        }
        if y == x {
            assert(r[0] == y);
        }
    } else if listed_before(x, s[0]) {
        assert(r =~= seq![x] + s);
        if r.contains(y) {
            let i = choose|i: int| 0 <= i < r.len() && r[i] == y;
            if i == 0 {
                assert(y == x);
            } else {
                assert(s[i - 1] == y);
            }
        }
        if y == x {
            assert(r[0] == y);
        }
        if s.contains(y) {
            let i = choose|i: int| 0 <= i < s.len() && s[i] == y;
            assert(r[i + 1] == y);
        }
    } else {
        lemma_insert_newest_first_contains(s.skip(1), x, y);
        let t = insert_newest_first(s.skip(1), x);
        assert(r =~= seq![s[0]] + t);
        if r.contains(y) {
            let i = choose|i: int| 0 <= i < r.len() && r[i] == y;
            if i == 0 {
                assert(s[0] == y);
            } else {
                assert(t[i - 1] == y);
                assert(t.contains(y));
            }
            if s.skip(1).contains(y) {
                let k = choose|k: int| 0 <= k < s.skip(1).len() && s.skip(1)[k] == y;
                assert(s[k + 1] == y);
            }
        }
        if y == x || s.contains(y) {
            if y == x || s.skip(1).contains(y) {
                assert(t.contains(y));
                let k = choose|k: int| 0 <= k < t.len() && t[k] == y;
                assert(r[k + 1] == y);
            } else {
                let i = choose|i: int| 0 <= i < s.len() && s[i] == y;
                if i == 0 {
                    assert(r[0] == y);
                } else {
                    assert(s.skip(1)[i - 1] == y);
                }
            }
        }
    }
}

/// Sorting keeps exactly the rows it was given.
pub proof fn lemma_sort_newest_first_contains(s: Seq<OrderRecord>, y: OrderRecord)
    ensures
        sort_newest_first(s).contains(y) <==> s.contains(y),
    decreases s.len(),
{
    if s.len() > 0 {
        lemma_sort_newest_first_contains(s.drop_last(), y);
        lemma_insert_newest_first_contains(sort_newest_first(s.drop_last()), s.last(), y);
        if s.contains(y) {
            let i = choose|i: int| 0 <= i < s.len() && s[i] == y;
            if i < s.len() - 1 {
                assert(s.drop_last()[i] == y);
            }
        }
        if s.drop_last().contains(y) {
            let i = choose|i: int| 0 <= i < s.drop_last().len() && s.drop_last()[i] == y;
            assert(s[i] == y);
        }
        if s.last() == y {
            assert(s[s.len() - 1] == y);
        }
    }
}

/// No later entry belongs above an earlier one: the sequence runs newest
/// first.
pub open spec fn newest_first_ordered(s: Seq<OrderRecord>) -> bool {
    forall|i: int, j: int| 0 <= i < j < s.len() ==> !listed_before(#[trigger] s[j], #[trigger] s[i])
}

proof fn lemma_insert_preserves_order(s: Seq<OrderRecord>, x: OrderRecord)
    requires
        newest_first_ordered(s),
    ensures
        newest_first_ordered(insert_newest_first(s, x)),
    decreases s.len(),
{
    let r = insert_newest_first(s, x);
    if s.len() == 0 {
        assert(r =~= seq![x]);
    } else if listed_before(x, s[0]) {
        assert(r =~= seq![x] + s);
        assert forall|i: int, j: int| 0 <= i < j < r.len() implies !listed_before(
            #[trigger] r[j],
            #[trigger] r[i],
        ) by {
            if i == 0 {
                assert(r[j] == s[j - 1]);
                assert(!listed_before(s[j - 1], s[0]));
            } else {
                assert(r[i] == s[i - 1] && r[j] == s[j - 1]);
            }
        }
    } else {
        assert forall|i: int, j: int| 0 <= i < j < s.skip(1).len() implies !listed_before(
            #[trigger] s.skip(1)[j],
            #[trigger] s.skip(1)[i],
        ) by {
            assert(s.skip(1)[i] == s[i + 1] && s.skip(1)[j] == s[j + 1]);
        }
        lemma_insert_preserves_order(s.skip(1), x);
        let t = insert_newest_first(s.skip(1), x);
        assert(r =~= seq![s[0]] + t);
        assert forall|i: int, j: int| 0 <= i < j < r.len() implies !listed_before(
            #[trigger] r[j],
            #[trigger] r[i],
        ) by {
            if i == 0 {
                assert(r[j] == t[j - 1]);
                assert(t.contains(t[j - 1]));
                lemma_insert_newest_first_contains(s.skip(1), x, t[j - 1]);
                if t[j - 1] == x {
                    assert(!listed_before(x, s[0]));
                } else {
                    let m = choose|m: int| 0 <= m < s.skip(1).len() && s.skip(1)[m] == t[j - 1];
                    assert(s[m + 1] == t[j - 1]);
                    assert(!listed_before(s[m + 1], s[0]));
                }
            } else {
                assert(r[i] == t[i - 1] && r[j] == t[j - 1]);
            }
        }
    }
}

/// The listing really is ordered: in what the sort returns, no order
/// stands below a strictly older one, and ties on the creation time keep
/// the younger id on top.
pub proof fn lemma_sort_newest_first_ordered(s: Seq<OrderRecord>)
    ensures
        newest_first_ordered(sort_newest_first(s)),
    decreases s.len(),
{
    if s.len() > 0 {
        lemma_sort_newest_first_ordered(s.drop_last());
        lemma_insert_preserves_order(sort_newest_first(s.drop_last()), s.last());
    }
}

/// Every row that passes the owner filter is owned by that user.
pub proof fn lemma_owned_orders_owner(s: Seq<OrderRecord>, user_id: i32)
    ensures
        forall|k: int|
            0 <= k < owned_orders(s, user_id).len() ==> (#[trigger] owned_orders(s, user_id)[k]).created_by
                == user_id,
    decreases s.len(),
{
    if s.len() > 0 {
        lemma_owned_orders_owner(s.drop_last(), user_id);
        let prev = owned_orders(s.drop_last(), user_id);
        assert forall|k: int| 0 <= k < owned_orders(s, user_id).len() implies (
        #[trigger] owned_orders(s, user_id)[k]).created_by == user_id by {
            if s.last().created_by == user_id {
                if k < prev.len() {
                    assert(owned_orders(s, user_id)[k] == prev[k]);
                } else {
                    assert(owned_orders(s, user_id)[k] == s.last());
                }
            } else {
                assert(owned_orders(s, user_id)[k] == prev[k]);
            }
        }
    }
}

/// A row of the table owned by the user passes the owner filter.
pub proof fn lemma_owned_orders_contains(s: Seq<OrderRecord>, user_id: i32, y: OrderRecord)
    requires
        s.contains(y),
        y.created_by == user_id,
    ensures
        owned_orders(s, user_id).contains(y),
    decreases s.len(),
{
    let i = choose|i: int| 0 <= i < s.len() && s[i] == y;
    if i < s.len() - 1 {
        assert(s.drop_last()[i] == y);
        lemma_owned_orders_contains(s.drop_last(), user_id, y);
        let o = owned_orders(s.drop_last(), user_id);
        let k = choose|k: int| 0 <= k < o.len() && o[k] == y;
        if s.last().created_by == user_id {
            assert(owned_orders(s, user_id)[k] == y);
        }
    } else {
        assert(s.last() == y);
        assert(owned_orders(s, user_id).last() == y);
    }
}

/// Every order a listing shows belongs to the identity the listing was
/// scoped to: the owner filter runs before the sort, and the sort keeps
/// exactly the filtered rows.
pub proof fn lemma_list_owner_isolation(orders: Seq<OrderRecord>, user_id: i32)
    ensures
        forall|k: int|
            0 <= k < sort_newest_first(owned_orders(orders, user_id)).len() ==> (
            #[trigger] sort_newest_first(owned_orders(orders, user_id))[k]).created_by == user_id,
{
    let owned = owned_orders(orders, user_id);
    let sorted = sort_newest_first(owned);
    lemma_owned_orders_owner(orders, user_id);
    assert forall|k: int| 0 <= k < sorted.len() implies (#[trigger] sorted[k]).created_by
        == user_id by {
        assert(sorted.contains(sorted[k]));
        lemma_sort_newest_first_contains(owned, sorted[k]);
        let i = choose|i: int| 0 <= i < owned.len() && owned[i] == sorted[k];
        assert(owned[i].created_by == user_id);
    }
}

/// A freshly created order turns up in its owner's listing: it passes
/// the owner filter of the grown table and survives the sort.  Which
/// fields that row carries is what `create_order` ensures.
pub proof fn lemma_created_order_listed(orders: Seq<OrderRecord>, rec: OrderRecord)
    ensures
        sort_newest_first(owned_orders(orders.push(rec), rec.created_by)).contains(rec),
{
    assert(orders.push(rec)[orders.len() as int] == rec);
    lemma_owned_orders_contains(orders.push(rec), rec.created_by, rec);
    lemma_sort_newest_first_contains(owned_orders(orders.push(rec), rec.created_by), rec);
}

fn record_listed_before(a: &OrderRecord, b: &OrderRecord) -> (r: bool)
    ensures
        r == listed_before(*a, *b),
{
    a.created_at > b.created_at || (a.created_at == b.created_at && a.id > b.id)
}

/// Inserting at the position the scan found is the same as the
/// recursive insertion.
proof fn lemma_insert_at(s: Seq<OrderRecord>, x: OrderRecord, j: int)
    requires
        0 <= j <= s.len(),
        forall|k: int| 0 <= k < j ==> !listed_before(x, #[trigger] s[k]),
        j < s.len() ==> listed_before(x, s[j]),
    ensures
        insert_newest_first(s, x) == s.insert(j, x),
    decreases s.len(),
{
    if s.len() == 0 {
        assert(insert_newest_first(s, x) =~= s.insert(0, x));
    } else if j == 0 {
        assert(insert_newest_first(s, x) =~= s.insert(0, x));
    } else {
        assert(!listed_before(x, s[0]));
        assert forall|k: int| 0 <= k < j - 1 implies !listed_before(x, #[trigger] s.skip(1)[k]) by {
            assert(s.skip(1)[k] == s[k + 1]);
        }
        lemma_insert_at(s.skip(1), x, j - 1);
        assert(insert_newest_first(s, x) =~= s.insert(j, x));
    }
}

fn insert_sorted(v: &mut Vec<OrderRecord>, x: OrderRecord)
    ensures
        final(v)@ == insert_newest_first(old(v)@, x),
{
    let n = v.len();
    let mut j: usize = 0;
    while j < n && !record_listed_before(&x, &v[j])
        invariant
            0 <= j <= n,
            n == v@.len(),
            v@ == old(v)@,
            forall|k: int| 0 <= k < j ==> !listed_before(x, #[trigger] v@[k]),
        decreases n - j,
    {
        j = j + 1;
    }
    proof {
        lemma_insert_at(v@, x, j as int);
    }
    v.insert(j, x);
}

fn collect_owned_sorted(store: &Store, user_id: i32) -> (v: Vec<OrderRecord>)
    ensures
        v@ == sort_newest_first(owned_orders(store.orders@, user_id)),
{
    let mut v: Vec<OrderRecord> = Vec::new();
    let n = store.orders.len();
    let mut i: usize = 0;
    assert(store.orders@.take(0) =~= Seq::<OrderRecord>::empty());
    while i < n
        invariant
            0 <= i <= n,
            n == store.orders@.len(),
            v@ == sort_newest_first(owned_orders(store.orders@.take(i as int), user_id)),
        decreases n - i,
    {
        let ghost prefix = store.orders@.take(i as int);
        let ghost grown = store.orders@.take(i as int + 1);
        proof {
            assert(grown.drop_last() =~= prefix);
            assert(grown.last() == store.orders@[i as int]);
        }
        let rec = &store.orders[i];
        if rec.created_by == user_id {
            proof {
                assert(owned_orders(grown, user_id) == owned_orders(prefix, user_id).push(*rec));
                assert(owned_orders(prefix, user_id).push(*rec).drop_last() =~= owned_orders(
                    prefix,
                    user_id,
                ));
            }
            insert_sorted(&mut v, rec.clone());
        } else {
            assert(owned_orders(grown, user_id) == owned_orders(prefix, user_id));
        }
        i = i + 1;
    }
    proof {
        assert(store.orders@.take(n as int) =~= store.orders@);
    }
    v
}

/// The page a query asks for, 1-indexed; absent means the first.
pub open spec fn query_page(q: ListOrdersQuery) -> u64 {
    if q.page is Some {
        q.page.unwrap()
    } else {
        1
    }
}

/// The page size a query asks for; absent means ten.
pub open spec fn query_page_size(q: ListOrdersQuery) -> u64 {
    if q.page_size is Some {
        q.page_size.unwrap()
    } else {
        10
    }
}

/// Where the requested page starts in the sorted listing, clamped to
/// its length.
pub open spec fn page_start(total: int, page: int, page_size: int) -> int {
    if (page - 1) * page_size <= total {
        (page - 1) * page_size
    } else {
        total
    }
}

/// Where the requested page ends in the sorted listing, clamped to its
/// length.
pub open spec fn page_end(total: int, page: int, page_size: int) -> int {
    if page_start(total, page, page_size) + page_size <= total {
        page_start(total, page, page_size) + page_size
    } else {
        total
    }
}

/// Returns the requested page of the caller's orders, newest first,
/// together with the count of all the caller's orders; a zero page or
/// page size is malformed input.
pub fn list_orders(store: &Store, auth: &AuthContext, query: &ListOrdersQuery) -> (r: Result<
    ListOrdersResponse,
    AppError,
>)
    requires
        store.wf(),
    ensures
        query_page(*query) == 0 || query_page_size(*query) == 0 ==> (r matches Err(e) && e
            matches AppError::ValidationError(m) && m@ == invalid_pagination_msg()),
        query_page(*query) >= 1 && query_page_size(*query) >= 1 ==> (r matches Ok(resp) && ({
            let owned = owned_orders(store.orders@, auth.user_id);
            let sorted = sort_newest_first(owned);
            let start = page_start(
                sorted.len() as int,
                query_page(*query) as int,
                query_page_size(*query) as int,
            );
            let end = page_end(
                sorted.len() as int,
                query_page(*query) as int,
                query_page_size(*query) as int,
            );
            &&& resp.total == owned.len()
            &&& resp.items@.len() == end - start
            &&& forall|k: int|
                0 <= k < end - start ==> is_response_of(sorted[start + k], #[trigger] resp.items@[k])
        })),
{
    let page: u64 = match query.page {
        Some(p) => p,
        None => 1,
    };
    let page_size: u64 = match query.page_size {
        Some(p) => p,
        None => 10,
    };
    if page == 0 || page_size == 0 {
        return Err(AppError::ValidationError("Invalid pagination parameters".to_owned()));
    }
    let sorted = collect_owned_sorted(store, auth.user_id);
    proof {
        lemma_sort_newest_first_len(owned_orders(store.orders@, auth.user_id));
    }
    let n = sorted.len();
    let total: u64 = n as u64;
    let pm1: u64 = page - 1;
    proof {
        assert((pm1 as u128) * (page_size as u128) <= (u64::MAX as u128) * (u64::MAX as u128))
            by (nonlinear_arith)
            requires
                pm1 <= u64::MAX,
                page_size <= u64::MAX,
        ;
    }
    let start_wide: u128 = (pm1 as u128) * (page_size as u128);
    let start: usize = if start_wide >= (n as u128) {
        n
    } else {
        start_wide as usize
    };
    assert(start as int == page_start(n as int, page as int, page_size as int));
    let room: usize = n - start;
    let count: usize = if (page_size as u128) <= (room as u128) {
        page_size as usize
    } else {
        room
    };
    let end: usize = start + count;
    assert(end as int == page_end(n as int, page as int, page_size as int));
    let mut items: Vec<OrderResponse> = Vec::new();
    let mut k: usize = start;
    while k < end
        invariant
            start <= k <= end,
            end <= n,
            n == sorted@.len(),
            items@.len() == k - start,
            forall|t: int|
                0 <= t < k - start ==> is_response_of(
                    sorted@[start as int + t],
                    #[trigger] items@[t],
                ),
        decreases end - k,
    {
        items.push(response_of(&sorted[k]));
        k = k + 1;
    }
    Ok(ListOrdersResponse { items, total })
}

/// Pagination arithmetic for the final page: with N orders and a page
/// size of P, the page numbered the ceiling of N over P starts inside
/// the listing and holds the remainder of N modulo P — or a full P when
/// P divides N — while `total` reported alongside is always N.
pub proof fn lemma_pagination_last_page(n: int, p: int)
    requires
        1 <= n,
        1 <= p,
    ensures
        ({
            let page = (n + p - 1) / p;
            let start = page_start(n, page, p);
            let end = page_end(n, page, p);
            &&& start == (page - 1) * p
            &&& 0 <= start < n
            &&& end == n
            &&& end - start == if n % p == 0 {
                p
            } else {
                n % p
            }
        }),
{
    let d = n / p;
    let m = n % p;
    vstd::arithmetic::div_mod::lemma_fundamental_div_mod(n, p);
    assert(n == p * d + m);
    if m == 0 {
        assert(n + p - 1 == (p * d) + (p - 1));
        vstd::arithmetic::div_mod::lemma_fundamental_div_mod_converse(n + p - 1, p, d, p - 1);
        assert((n + p - 1) / p == d);
        assert(d >= 1) by (nonlinear_arith)
            requires
                n == p * d + m,
                m == 0,
                n >= 1,
                p >= 1,
        ;
        assert((d - 1) * p == n - p) by (nonlinear_arith)
            requires
                n == p * d + m,
                m == 0,
        ;
    } else {
        assert(n + p - 1 == p * (d + 1) + (m - 1)) by (nonlinear_arith)
            requires
                n == p * d + m,
        ;
        vstd::arithmetic::div_mod::lemma_fundamental_div_mod_converse(n + p - 1, p, d + 1, m - 1);
        assert((n + p - 1) / p == d + 1);
        assert(d * p == n - m) by (nonlinear_arith)
            requires
                n == p * d + m,
        ;
        assert(d * p >= 0) by (nonlinear_arith)
            requires
                d >= 0,
                p >= 1,
        ;
    }
}

/// An order that belongs to someone else looks nonexistent: ids are
/// unique in a well-formed store, so a lookup scoped to another user
/// finds nothing, and `update_order` and `delete_order` answer not-found
/// and leave the store unchanged.
pub proof fn lemma_foreign_order_invisible(store: Store, at: int, user_id: i32)
    requires
        store.wf(),
        0 <= at < store.orders@.len(),
        store.orders@[at].created_by != user_id,
    ensures
        !owned_order_found(store.orders@, user_id, store.orders@[at].id),
{
    if owned_order_found(store.orders@, user_id, store.orders@[at].id) {
        let i = choose|i: int|
            0 <= i < store.orders@.len() && (#[trigger] store.orders@[i]).id
                == store.orders@[at].id && store.orders@[i].created_by == user_id;
        assert(i != at);
        assert(store.orders@[i].id != store.orders@[at].id);
    }
}

/// A partial update that supplies only `status` leaves every other field
/// unchanged and moves `updated_at` forward.
pub proof fn lemma_partial_update_status(
    o: OrderRecord,
    req: UpdateOrderRequest,
    now: u64,
    r: OrderRecord,
)
    requires
        updated_record(o, req, now, r),
        req.customer_name is None,
        req.phone is None,
        req.prescription is None,
        req.frame_type is None,
        req.lens_type is None,
        req.total_amount_cents is None,
        req.status matches Some(s),
        o.updated_at < now,
    ensures
        r.id == o.id,
        r.created_by == o.created_by,
        r.created_at == o.created_at,
        r.customer_name@ == o.customer_name@,
        r.phone@ == o.phone@,
        r.prescription@ == o.prescription@,
        r.frame_type@ == o.frame_type@,
        r.lens_type@ == o.lens_type@,
        r.total_amount_cents == o.total_amount_cents,
        r.status@ == req.status.unwrap()@,
        r.updated_at > o.updated_at,
{
}

} // verus!
