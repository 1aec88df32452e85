use pieshop::pie_state::{
    check_user_blacklist, get_all_remaining, get_pie_soldout, get_remaining, get_user_blacklist,
    pie_purchases, previous_purchase, purchase_pie, set_pie_soldout, set_remaining,
    set_user_blacklist, Store,
};
use pieshop::pies::{Pie, Purchase};
use pieshop::purchase::{
    over_cap, plan_purchase, PurchasePlan, PurchaseSnapshot, PurchaseStatus, ALLOWED_PIES,
};

fn pie(id: u64, slices: u64) -> Pie {
    Pie { id, slices, labels: Vec::new() }
}

fn user(name: &str) -> String {
    String::from(name)
}

fn seen(blacklisted: bool, remaining: i64, purchased: Option<i64>) -> PurchaseSnapshot {
    PurchaseSnapshot { blacklisted, remaining, purchased }
}

fn refusal(status: PurchaseStatus) -> PurchasePlan {
    PurchasePlan { status, slices: 0, blacklist: false, sold_out: false }
}

#[test]
fn the_cap_is_three() {
    assert_eq!(ALLOWED_PIES, 3);
    assert!(!over_cap(3));
    assert!(over_cap(4));
    assert!(!over_cap(0));
    assert!(!over_cap(-1));
    assert!(over_cap(i64::MAX));
}

#[test]
fn plan_refuses_more_than_the_cap_first() {
    assert_eq!(plan_purchase(4, &seen(false, 10, None)), refusal(PurchaseStatus::OverLimit));
    assert_eq!(plan_purchase(4, &seen(false, 0, None)), refusal(PurchaseStatus::OverLimit));
    assert_eq!(plan_purchase(4, &seen(true, -5, Some(3))), refusal(PurchaseStatus::OverLimit));
    assert_eq!(
        plan_purchase(i64::MAX, &seen(false, i64::MAX, Some(i64::MAX))),
        refusal(PurchaseStatus::OverLimit)
    );
}

#[test]
fn plan_refuses_a_barred_customer_before_it_looks_at_the_stock() {
    assert_eq!(plan_purchase(1, &seen(true, 0, None)), refusal(PurchaseStatus::OverLimit));
    assert_eq!(plan_purchase(1, &seen(true, 10, Some(0))), refusal(PurchaseStatus::OverLimit));
    assert_eq!(plan_purchase(0, &seen(true, 10, None)), refusal(PurchaseStatus::OverLimit));
}

#[test]
fn plan_refuses_where_nothing_is_left() {
    assert_eq!(plan_purchase(1, &seen(false, 0, None)), refusal(PurchaseStatus::OutOfStock));
    assert_eq!(plan_purchase(1, &seen(false, -2, None)), refusal(PurchaseStatus::OutOfStock));
    assert_eq!(plan_purchase(0, &seen(false, 0, None)), refusal(PurchaseStatus::OutOfStock));
    assert_eq!(plan_purchase(1, &seen(false, 0, Some(3))), refusal(PurchaseStatus::OutOfStock));
}

#[test]
fn plan_refuses_where_less_is_left_than_asked_for() {
    assert_eq!(plan_purchase(3, &seen(false, 2, None)), refusal(PurchaseStatus::OutOfStock));
    assert_eq!(plan_purchase(2, &seen(false, 1, Some(3))), refusal(PurchaseStatus::OutOfStock));
}

#[test]
fn plan_refuses_a_total_over_the_cap() {
    assert_eq!(plan_purchase(2, &seen(false, 10, Some(2))), refusal(PurchaseStatus::OverLimit));
    assert_eq!(plan_purchase(1, &seen(false, 10, Some(3))), refusal(PurchaseStatus::OverLimit));
    assert_eq!(
        plan_purchase(3, &seen(false, 10, Some(i64::MAX))),
        refusal(PurchaseStatus::OverLimit)
    );
}

#[test]
fn plan_of_a_purchase_below_the_cap() {
    assert_eq!(
        plan_purchase(1, &seen(false, 10, None)),
        PurchasePlan { status: PurchaseStatus::Success, slices: 1, blacklist: false, sold_out: false }
    );
    assert_eq!(
        plan_purchase(1, &seen(false, 10, Some(1))),
        PurchasePlan { status: PurchaseStatus::Success, slices: 1, blacklist: false, sold_out: false }
    );
}

#[test]
fn plan_of_a_purchase_that_reaches_the_cap() {
    assert_eq!(
        plan_purchase(3, &seen(false, 10, None)),
        PurchasePlan { status: PurchaseStatus::Success, slices: 3, blacklist: true, sold_out: false }
    );
    assert_eq!(
        plan_purchase(2, &seen(false, 10, Some(1))),
        PurchasePlan { status: PurchaseStatus::Success, slices: 2, blacklist: true, sold_out: false }
    );
}

#[test]
fn plan_of_a_purchase_that_takes_the_last_slices() {
    assert_eq!(
        plan_purchase(2, &seen(false, 2, None)),
        PurchasePlan { status: PurchaseStatus::Success, slices: 2, blacklist: false, sold_out: true }
    );
    assert_eq!(
        plan_purchase(3, &seen(false, 3, Some(0))),
        PurchasePlan { status: PurchaseStatus::Success, slices: 3, blacklist: true, sold_out: true }
    );
}

#[test]
fn plan_of_a_purchase_of_nothing() {
    assert_eq!(
        plan_purchase(0, &seen(false, 5, Some(2))),
        PurchasePlan { status: PurchaseStatus::Success, slices: 0, blacklist: false, sold_out: false }
    );
    assert_eq!(
        plan_purchase(0, &seen(false, 5, Some(3))),
        PurchasePlan { status: PurchaseStatus::Success, slices: 0, blacklist: true, sold_out: false }
    );
}

#[test]
fn plan_does_not_overflow_on_extreme_counts() {
    assert_eq!(
        plan_purchase(i64::MIN, &seen(false, i64::MAX, Some(i64::MIN))),
        PurchasePlan {
            status: PurchaseStatus::Success,
            slices: i64::MIN,
            blacklist: false,
            sold_out: false
        }
    );
    assert_eq!(
        plan_purchase(3, &seen(false, i64::MAX, Some(i64::MIN))),
        PurchasePlan { status: PurchaseStatus::Success, slices: 3, blacklist: false, sold_out: false }
    );
}

#[test]
fn a_new_store_holds_nothing() {
    let store = Store::new();
    let apple = pie(1, 8);
    assert_eq!(get_remaining(&store, &apple), 0);
    assert_eq!(previous_purchase(&store, &apple, &user("ann")), None);
    assert!(!check_user_blacklist(&store, &user("ann"), 0));
    assert_eq!(get_user_blacklist(&store, &user("ann")).len(), 0);
    assert_eq!(get_pie_soldout(&store).len(), 0);
    assert_eq!(pie_purchases(&store, &apple), Vec::<Purchase>::new());
}

#[test]
fn set_remaining_sets_one_count() {
    let mut store = Store::new();
    let apple = pie(1, 8);
    let cherry = pie(2, 5);
    set_remaining(&mut store, &apple);
    assert_eq!(get_remaining(&store, &apple), 8);
    assert_eq!(get_remaining(&store, &cherry), 0);
    set_remaining(&mut store, &cherry);
    set_remaining(&mut store, &pie(1, 6));
    assert_eq!(get_remaining(&store, &apple), 6);
    assert_eq!(get_remaining(&store, &cherry), 5);
}

#[test]
fn get_all_remaining_keeps_the_order_asked_for() {
    let mut store = Store::new();
    set_remaining(&mut store, &pie(1, 8));
    set_remaining(&mut store, &pie(2, 5));
    set_remaining(&mut store, &pie(3, 0));
    assert_eq!(get_all_remaining(&store, &vec![&3, &1, &9, &2, &1]), vec![0, 8, 0, 5, 8]);
    assert_eq!(get_all_remaining(&store, &Vec::new()), Vec::<u64>::new());
}

#[test]
fn blacklist_bits_are_kept_for_each_customer() {
    let mut store = Store::new();
    set_user_blacklist(&mut store, &user("ann"), 2);
    set_user_blacklist(&mut store, &user("ann"), 9);
    set_user_blacklist(&mut store, &user("bob"), 0);
    assert!(check_user_blacklist(&store, &user("ann"), 2));
    assert!(check_user_blacklist(&store, &user("ann"), 9));
    assert!(!check_user_blacklist(&store, &user("ann"), 0));
    assert!(!check_user_blacklist(&store, &user("ann"), 500));
    assert!(check_user_blacklist(&store, &user("bob"), 0));
    assert!(!check_user_blacklist(&store, &user("bob"), 2));
    assert_eq!(get_user_blacklist(&store, &user("ann")).to_bytes(), vec![0b0010_0000, 0b0100_0000]);
    assert_eq!(get_user_blacklist(&store, &user("bob")).to_bytes(), vec![0b1000_0000]);
    assert_eq!(get_user_blacklist(&store, &user("cy")).to_bytes(), Vec::<u8>::new());
}

#[test]
fn sold_out_bits_are_shared() {
    let mut store = Store::new();
    set_pie_soldout(&mut store, 1);
    set_pie_soldout(&mut store, 1);
    set_pie_soldout(&mut store, 8);
    let marks = get_pie_soldout(&store);
    assert_eq!(marks.len(), 16);
    assert_eq!(marks.to_bytes(), vec![0b0100_0000, 0b1000_0000]);
}

#[test]
fn more_than_the_cap_is_over_limit_and_changes_nothing() {
    let mut store = Store::new();
    let apple = pie(1, 8);
    set_remaining(&mut store, &apple);
    assert_eq!(purchase_pie(&mut store, &apple, 0, &user("ann"), 4), PurchaseStatus::OverLimit);
    assert_eq!(get_remaining(&store, &apple), 8);
    assert_eq!(previous_purchase(&store, &apple, &user("ann")), None);
    assert!(!check_user_blacklist(&store, &user("ann"), 0));
    assert!(!get_pie_soldout(&store).any_set());
    assert_eq!(purchase_pie(&mut store, &pie(7, 0), 3, &user("ann"), 100), PurchaseStatus::OverLimit);
}

#[test]
fn a_barred_customer_is_over_limit_whatever_the_stock() {
    let mut store = Store::new();
    let apple = pie(1, 8);
    let gone = pie(2, 0);
    set_remaining(&mut store, &apple);
    set_remaining(&mut store, &gone);
    set_user_blacklist(&mut store, &user("ann"), 0);
    set_user_blacklist(&mut store, &user("ann"), 1);
    assert_eq!(purchase_pie(&mut store, &apple, 0, &user("ann"), 1), PurchaseStatus::OverLimit);
    assert_eq!(purchase_pie(&mut store, &gone, 1, &user("ann"), 1), PurchaseStatus::OverLimit);
    assert_eq!(get_remaining(&store, &apple), 8);
    assert_eq!(previous_purchase(&store, &apple, &user("ann")), None);
    assert_eq!(purchase_pie(&mut store, &apple, 0, &user("bob"), 1), PurchaseStatus::Success);
}

#[test]
fn out_of_stock_changes_nothing() {
    let mut store = Store::new();
    let small = pie(1, 2);
    let unknown = pie(9, 4);
    set_remaining(&mut store, &small);
    assert_eq!(purchase_pie(&mut store, &small, 0, &user("ann"), 3), PurchaseStatus::OutOfStock);
    assert_eq!(purchase_pie(&mut store, &unknown, 1, &user("ann"), 1), PurchaseStatus::OutOfStock);
    assert_eq!(get_remaining(&store, &small), 2);
    assert_eq!(previous_purchase(&store, &small, &user("ann")), None);
    assert!(!get_pie_soldout(&store).any_set());
}

#[test]
fn a_purchase_moves_slices_from_the_stock_to_the_ledger() {
    let mut store = Store::new();
    let apple = pie(1, 8);
    let cherry = pie(2, 5);
    set_remaining(&mut store, &apple);
    set_remaining(&mut store, &cherry);
    assert_eq!(purchase_pie(&mut store, &apple, 0, &user("ann"), 2), PurchaseStatus::Success);
    assert_eq!(get_remaining(&store, &apple), 6);
    assert_eq!(get_remaining(&store, &cherry), 5);
    assert_eq!(previous_purchase(&store, &apple, &user("ann")), Some(2));
    assert_eq!(previous_purchase(&store, &cherry, &user("ann")), None);
    assert_eq!(previous_purchase(&store, &apple, &user("bob")), None);
    assert!(!check_user_blacklist(&store, &user("ann"), 0));
    assert!(!get_pie_soldout(&store).any_set());
}

#[test]
fn reaching_the_cap_bars_the_customer_from_that_pie() {
    let mut store = Store::new();
    let apple = pie(1, 8);
    let cherry = pie(2, 5);
    set_remaining(&mut store, &apple);
    set_remaining(&mut store, &cherry);
    assert_eq!(purchase_pie(&mut store, &apple, 4, &user("ann"), 1), PurchaseStatus::Success);
    assert!(!check_user_blacklist(&store, &user("ann"), 4));
    assert_eq!(purchase_pie(&mut store, &apple, 4, &user("ann"), 3), PurchaseStatus::OverLimit);
    assert_eq!(previous_purchase(&store, &apple, &user("ann")), Some(1));
    assert_eq!(get_remaining(&store, &apple), 7);
    assert_eq!(purchase_pie(&mut store, &apple, 4, &user("ann"), 2), PurchaseStatus::Success);
    assert_eq!(previous_purchase(&store, &apple, &user("ann")), Some(3));
    assert_eq!(get_remaining(&store, &apple), 5);
    assert!(check_user_blacklist(&store, &user("ann"), 4));
    assert!(!check_user_blacklist(&store, &user("bob"), 4));
    assert_eq!(purchase_pie(&mut store, &apple, 4, &user("ann"), 0), PurchaseStatus::OverLimit);
    assert_eq!(purchase_pie(&mut store, &cherry, 5, &user("ann"), 3), PurchaseStatus::Success);
    assert!(check_user_blacklist(&store, &user("ann"), 5));
    assert_eq!(get_user_blacklist(&store, &user("ann")).to_bytes(), vec![0b0000_1100]);
}

#[test]
fn taking_the_last_slice_marks_the_pie_sold_out() {
    let mut store = Store::new();
    let small = pie(3, 4);
    set_remaining(&mut store, &small);
    assert_eq!(purchase_pie(&mut store, &small, 2, &user("ann"), 3), PurchaseStatus::Success);
    assert!(!get_pie_soldout(&store).any_set());
    assert_eq!(purchase_pie(&mut store, &small, 2, &user("bob"), 2), PurchaseStatus::OutOfStock);
    assert_eq!(purchase_pie(&mut store, &small, 2, &user("bob"), 1), PurchaseStatus::Success);
    assert_eq!(get_remaining(&store, &small), 0);
    assert_eq!(get_pie_soldout(&store).to_bytes(), vec![0b0010_0000]);
    assert_eq!(purchase_pie(&mut store, &small, 2, &user("cy"), 1), PurchaseStatus::OutOfStock);
    assert_eq!(purchase_pie(&mut store, &small, 2, &user("cy"), 0), PurchaseStatus::OutOfStock);
    assert_eq!(get_remaining(&store, &small), 0);
}

#[test]
fn the_count_never_grows_and_never_goes_below_zero() {
    let mut store = Store::new();
    let apple = pie(1, 7);
    set_remaining(&mut store, &apple);
    let customers = ["ann", "bob", "cy", "dee"];
    let amounts: [isize; 12] = [2, 3, 1, 4, 0, 3, 2, 1, 1, 3, 2, 1];
    let mut last = get_remaining(&store, &apple);
    let mut sold = 0;
    for (turn, amount) in amounts.iter().enumerate() {
        let who = user(customers[turn % customers.len()]);
        let status = purchase_pie(&mut store, &apple, 0, &who, *amount);
        let now = get_remaining(&store, &apple);
        assert!(now <= last);
        if status == PurchaseStatus::Success {
            assert_eq!(now, last - *amount as u64);
            sold += *amount;
        } else {
            assert_eq!(now, last);
        }
        last = now;
    }
    assert_eq!(last, 0);
    assert_eq!(sold, 7);
    assert!(get_pie_soldout(&store).is_set(0));
}

#[test]
fn pie_purchases_lists_each_customer_of_the_pie_once() {
    let mut store = Store::new();
    let apple = pie(1, 8);
    let cherry = pie(2, 5);
    set_remaining(&mut store, &apple);
    set_remaining(&mut store, &cherry);
    purchase_pie(&mut store, &apple, 0, &user("ann"), 1);
    purchase_pie(&mut store, &cherry, 1, &user("ann"), 3);
    purchase_pie(&mut store, &apple, 0, &user("bob"), 2);
    purchase_pie(&mut store, &apple, 0, &user("ann"), 1);
    let mut lines = pie_purchases(&store, &apple);
    lines.sort_by(|a, b| a.username.cmp(&b.username));
    assert_eq!(
        lines,
        vec![
            Purchase { username: user("ann"), slices: 2 },
            Purchase { username: user("bob"), slices: 2 }
        ]
    );
    assert_eq!(
        pie_purchases(&store, &cherry),
        vec![Purchase { username: user("ann"), slices: 3 }]
    );
    assert_eq!(pie_purchases(&store, &pie(3, 1)), Vec::<Purchase>::new());
}

#[test]
fn a_negative_amount_passes_every_guard() {
    let mut store = Store::new();
    let apple = pie(1, 8);
    set_remaining(&mut store, &apple);
    assert_eq!(purchase_pie(&mut store, &apple, 0, &user("ann"), -2), PurchaseStatus::Success);
    assert_eq!(get_remaining(&store, &apple), 10);
    assert_eq!(previous_purchase(&store, &apple, &user("ann")), Some(-2));
}
