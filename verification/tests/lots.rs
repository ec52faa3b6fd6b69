use financial_model::fixed::ONE;
use financial_model::lots::{value_of, Lot, Pool};

fn lot(principal: u64, gain: i64, weeks_held: usize) -> Lot {
    Lot { principal, gain, weeks_held }
}

#[test]
fn pool_sells_oldest_lot_first() {
    let mut pool = Pool::new();
    pool.push(Lot::new(100));
    pool.push(Lot::new(50));
    let sold = pool.sell(120);
    assert_eq!(sold, vec![lot(100, 0, 0), lot(20, 0, 0)]);
    assert_eq!(pool.len(), 1);
    assert_eq!(pool.lot(0), lot(30, 0, 0));
}

#[test]
fn a_sale_within_the_pool_takes_exactly_the_amount() {
    let mut pool = Pool::new();
    pool.push(lot(100, 20, 60));
    pool.push(lot(50, 10, 3));
    pool.push(lot(7, 0, 1));
    let before = pool.value();
    let sold = pool.sell(150);
    assert_eq!(value_of(&sold), 150);
    assert_eq!(pool.value(), before - 150);
    assert_eq!(sold.len(), 2);
    assert_eq!(sold[0], lot(100, 20, 60));
    assert_eq!(sold[1], lot(25, 5, 3));
    assert_eq!(pool.lot(0), lot(25, 5, 3));
}

#[test]
fn a_sale_beyond_the_pool_takes_everything() {
    let mut pool = Pool::new();
    pool.push(lot(100, 20, 60));
    pool.push(lot(50, 10, 3));
    let sold = pool.sell(1_000);
    assert_eq!(value_of(&sold), 180);
    assert_eq!(pool.len(), 0);
    assert_eq!(pool.value(), 0);
}

#[test]
fn a_sale_of_exactly_the_pool_takes_everything() {
    let mut pool = Pool::new();
    pool.push(lot(100, 20, 60));
    pool.push(lot(50, 10, 3));
    let sold = pool.sell(180);
    assert_eq!(sold, vec![lot(100, 20, 60), lot(50, 10, 3)]);
    assert_eq!(pool.len(), 0);
}

#[test]
fn a_sale_of_nothing_takes_nothing() {
    let mut pool = Pool::new();
    pool.push(lot(100, 20, 60));
    let sold = pool.sell(0);
    assert_eq!(sold.len(), 0);
    assert_eq!(pool.len(), 1);
    assert_eq!(pool.lot(0), lot(100, 20, 60));
}

#[test]
fn a_sale_from_an_empty_pool_takes_nothing() {
    let mut pool = Pool::new();
    let sold = pool.sell(5);
    assert_eq!(sold.len(), 0);
    assert_eq!(pool.len(), 0);
}

#[test]
fn a_split_lot_gives_up_principal_in_proportion() {
    let mut pool = Pool::new();
    pool.push(lot(300, 100, 9));
    let sold = pool.sell(10);
    assert_eq!(sold, vec![lot(7, 3, 9)]);
    assert_eq!(pool.lot(0), lot(293, 97, 9));
    let sold = pool.sell(389);
    assert_eq!(value_of(&sold), 389);
    assert_eq!(pool.value(), 1);
}

#[test]
fn lots_without_value_are_passed_over_by_a_sale() {
    let mut pool = Pool::new();
    pool.push(lot(0, 0, 5));
    pool.push(lot(10, 0, 2));
    let sold = pool.sell(4);
    assert_eq!(sold, vec![lot(0, 0, 5), lot(4, 0, 2)]);
    assert_eq!(pool.len(), 1);
}

#[test]
fn a_lot_earns_on_its_whole_value() {
    let mut l = lot(1_000_000, 500_000, 0);
    l.simulate_timestep(ONE + ONE / 100);
    assert_eq!(l, lot(1_000_000, 515_000, 1));
    l.simulate_timestep(ONE);
    assert_eq!(l, lot(1_000_000, 515_000, 2));
}

#[test]
fn a_lot_loses_on_its_whole_value() {
    let mut l = lot(100, 20, 0);
    l.simulate_timestep(ONE / 2);
    assert_eq!(l, lot(100, -40, 1));
    assert_eq!(l.worth(), 60);
    l.simulate_timestep(0);
    assert_eq!(l, lot(100, -100, 2));
    assert_eq!(l.worth(), 0);
    l.simulate_timestep(2 * ONE);
    assert_eq!(l, lot(100, -100, 3));
}

#[test]
fn a_lot_at_a_loss_is_split_in_proportion() {
    let mut pool = Pool::new();
    pool.push(lot(100, -20, 3));
    pool.push(lot(10, 0, 1));
    assert_eq!(pool.value(), 90);
    let sold = pool.sell(40);
    assert_eq!(sold, vec![lot(50, -10, 3)]);
    assert_eq!(value_of(&sold), 40);
    assert_eq!(pool.lot(0), lot(50, -10, 3));
    let sold = pool.sell(45);
    assert_eq!(sold, vec![lot(50, -10, 3), lot(5, 0, 1)]);
    assert_eq!(pool.value(), 5);
}

#[test]
fn a_lot_is_capped_at_the_largest_amount() {
    let mut l = lot(u64::MAX - 10, 5, usize::MAX);
    l.simulate_timestep(2 * ONE);
    assert_eq!(l, lot(u64::MAX - 10, 10, usize::MAX));
}

#[test]
fn growing_a_pool_keeps_its_order() {
    let mut pool = Pool::new();
    pool.push(lot(100, 0, 0));
    pool.push(lot(200, 0, 7));
    pool.push(lot(300, 30, 9));
    pool.grow(ONE + ONE / 10);
    assert_eq!(pool.len(), 3);
    assert_eq!(pool.lot(0), lot(100, 10, 1));
    assert_eq!(pool.lot(1), lot(200, 20, 8));
    assert_eq!(pool.lot(2), lot(300, 63, 10));
    assert_eq!(pool.value(), 693);
}

#[test]
fn draining_a_pool_returns_every_lot() {
    let mut pool = Pool::new();
    pool.push(lot(1, 2, 3));
    pool.push(lot(4, 5, 6));
    let all = pool.drain();
    assert_eq!(all, vec![lot(1, 2, 3), lot(4, 5, 6)]);
    assert_eq!(pool.len(), 0);
}

#[test]
fn the_value_of_a_pool_is_capped() {
    let mut pool = Pool::new();
    pool.push(lot(u64::MAX, 0, 0));
    pool.push(lot(5, 0, 0));
    assert_eq!(pool.value(), u64::MAX);
}
