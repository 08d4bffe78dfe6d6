use ma_cross_bridge::engine::{BoundaryCall, CtaEngineExtern, Slot, V_TABLE_LEN};
use ma_cross_bridge::meta::{abi_version, author, parameters, variable_names, variables};
use ma_cross_bridge::setting::{lookup_value, merge_params, parse_i64, parse_setting_entries, Param};
use ma_cross_bridge::strategy::{
    detect_cross, BarAction, Compare, Cross, CtaTemplate, Direction, Offset, OrderRequest, Phase,
};

const TABLE: [usize; V_TABLE_LEN] = [100, 101, 102, 103, 104];

fn pairs(v: &Vec<Param>) -> Vec<(String, String)> {
    v.iter().map(|p| (p.key.clone(), p.value.clone())).collect()
}

fn pair(k: &str, v: &str) -> (String, String) {
    (k.to_string(), v.to_string())
}

fn template(setting: &str) -> CtaTemplate {
    CtaTemplate::new(TABLE, "ma".to_string(), "rb2410.SHFE".to_string(), setting).unwrap()
}

fn order(direction: Direction, offset: Offset, price: f64) -> BarAction {
    BarAction::Submit(OrderRequest {
        direction,
        offset,
        price_bits: price.to_bits(),
        volume: 1,
        stop: false,
        lock: false,
        net: false,
    })
}

#[test]
fn metadata_queries() {
    assert_eq!(abi_version(), 1);
    assert_eq!(author(), "wuliehan");
    assert_eq!(parameters(), "fast_window:10,slow_window:20");
    assert_eq!(variables(), "fast_ma0,fast_ma1,slow_ma0,slow_ma1");
    assert_eq!(variable_names(), "inited,trading,pos,fast_ma0,fast_ma1,slow_ma0,slow_ma1");
}

#[test]
fn setting_entries_in_order() {
    let es = parse_setting_entries("fast_window:5,slow_window:30").unwrap();
    assert_eq!(pairs(&es), vec![pair("fast_window", "5"), pair("slow_window", "30")]);
}

#[test]
fn empty_setting_has_no_entries() {
    assert_eq!(parse_setting_entries("").unwrap().len(), 0);
}

#[test]
fn value_stops_at_second_colon() {
    let es = parse_setting_entries("k:1:2").unwrap();
    assert_eq!(pairs(&es), vec![pair("k", "1")]);
}

#[test]
fn empty_value_is_kept() {
    let es = parse_setting_entries("k:").unwrap();
    assert_eq!(pairs(&es), vec![pair("k", "")]);
}

#[test]
fn malformed_settings_are_refused() {
    assert!(parse_setting_entries("fast_window").is_none());
    assert!(parse_setting_entries("a:1,").is_none());
    assert!(parse_setting_entries(",a:1").is_none());
    assert!(parse_setting_entries("a:1,,b:2").is_none());
}

#[test]
fn merge_prefers_caller_and_first_occurrence() {
    let caller = parse_setting_entries("fast_window:5,x:1,fast_window:7").unwrap();
    let defaults = parse_setting_entries("fast_window:10,slow_window:20").unwrap();
    let merged = merge_params(&caller, &defaults);
    assert_eq!(
        pairs(&merged),
        vec![pair("fast_window", "5"), pair("x", "1"), pair("slow_window", "20")]
    );
}

#[test]
fn merge_with_no_caller_entries_keeps_defaults() {
    let caller = parse_setting_entries("").unwrap();
    let defaults = parse_setting_entries("fast_window:10,slow_window:20,fast_window:99").unwrap();
    let merged = merge_params(&caller, &defaults);
    assert_eq!(pairs(&merged), vec![pair("fast_window", "10"), pair("slow_window", "20")]);
}

#[test]
fn lookup_finds_first_value() {
    let es = parse_setting_entries("a:1,b:2,a:3").unwrap();
    assert_eq!(lookup_value(&es, &"a".to_string()).unwrap(), "1");
    assert_eq!(lookup_value(&es, &"b".to_string()).unwrap(), "2");
    assert!(lookup_value(&es, &"c".to_string()).is_none());
}

#[test]
fn decimal_integers() {
    assert_eq!(parse_i64("10"), Some(10));
    assert_eq!(parse_i64("007"), Some(7));
    assert_eq!(parse_i64("-5"), Some(-5));
    assert_eq!(parse_i64("9223372036854775807"), Some(i64::MAX));
    assert_eq!(parse_i64("-9223372036854775808"), Some(i64::MIN));
}

#[test]
fn decimal_integers_refused() {
    assert_eq!(parse_i64(""), None);
    assert_eq!(parse_i64("-"), None);
    assert_eq!(parse_i64("1a"), None);
    assert_eq!(parse_i64("1.5"), None);
    assert_eq!(parse_i64("+3"), None);
    assert_eq!(parse_i64("9223372036854775808"), None);
    assert_eq!(parse_i64("-9223372036854775809"), None);
    assert_eq!(parse_i64("99999999999999999999999"), None);
}

#[test]
fn create_with_defaults() {
    let t = template("");
    assert_eq!(t.fast_window, 10);
    assert_eq!(t.slow_window, 20);
    assert_eq!(t.strategy_name, "ma");
    assert_eq!(t.vt_symbol, "rb2410.SHFE");
    assert!(!t.inited);
    assert!(!t.trading);
    assert_eq!(t.phase, Phase::Created);
    assert_eq!(t.cta_engine.this, 0);
    assert_eq!(t.cta_engine.v_table, TABLE);
}

#[test]
fn create_with_overrides() {
    let t = template("slow_window:60,fast_window:3,fast_window:4,extra:abc");
    assert_eq!(t.fast_window, 3);
    assert_eq!(t.slow_window, 60);
}

#[test]
fn create_refuses_bad_settings() {
    assert!(CtaTemplate::new(TABLE, String::new(), String::new(), "fast_window").is_none());
    assert!(CtaTemplate::new(TABLE, String::new(), String::new(), "fast_window:x").is_none());
    assert!(CtaTemplate::new(TABLE, String::new(), String::new(), "slow_window:1.5").is_none());
}

#[test]
fn slot_positions() {
    assert_eq!(Slot::LoadBar.index(), 0);
    assert_eq!(Slot::DropBars.index(), 1);
    assert_eq!(Slot::SendOrder.index(), 2);
    assert_eq!(Slot::DropOrderIds.index(), 3);
    assert_eq!(Slot::CancelAll.index(), 4);
}

#[test]
fn unbound_engine_refuses_services() {
    let e = CtaEngineExtern::new(TABLE);
    assert!(!e.is_bound());
    assert!(e.load_bar().is_none());
    assert!(e.send_order().is_none());
    assert!(e.cancel_all().is_none());
}

#[test]
fn fetch_releases_exactly_once() {
    let mut e = CtaEngineExtern::new(TABLE);
    e.this = 7;
    assert_eq!(
        e.load_bar().unwrap(),
        vec![
            BoundaryCall { slot: Slot::LoadBar, address: 100 },
            BoundaryCall { slot: Slot::DropBars, address: 101 },
        ]
    );
    assert_eq!(e.cancel_all().unwrap(), vec![BoundaryCall { slot: Slot::CancelAll, address: 104 }]);
}

#[test]
fn on_init_binds_handle() {
    let mut t = template("");
    t.on_init(4242);
    assert_eq!(t.cta_engine.this, 4242);
    assert_eq!(t.phase, Phase::Initialized);
    assert!(!t.trading);
    t.on_start();
    assert_eq!(t.phase, Phase::Trading);
    assert!(!t.trading);
    t.on_stop();
    assert_eq!(t.phase, Phase::Stopped);
}

#[test]
fn no_boundary_call_while_not_trading() {
    let t = template("");
    assert_eq!(t.send_order().unwrap(), vec![]);
    let mut t = template("");
    t.on_init(9);
    assert_eq!(t.send_order().unwrap(), vec![]);
}

#[test]
fn trading_submission_calls_then_releases() {
    let mut t = template("");
    t.trading = true;
    assert!(t.send_order().is_none());
    t.on_init(9);
    assert_eq!(
        t.send_order().unwrap(),
        vec![
            BoundaryCall { slot: Slot::SendOrder, address: 102 },
            BoundaryCall { slot: Slot::DropOrderIds, address: 103 },
        ]
    );
}

#[test]
fn crossover_detection() {
    assert_eq!(detect_cross(Compare::Greater, Compare::Less), Cross::Over);
    assert_eq!(detect_cross(Compare::Less, Compare::Greater), Cross::Under);
    assert_eq!(detect_cross(Compare::Greater, Compare::Equal), Cross::Neither);
    assert_eq!(detect_cross(Compare::Greater, Compare::Greater), Cross::Neither);
    assert_eq!(detect_cross(Compare::Unordered, Compare::Less), Cross::Neither);
}

#[test]
fn crossover_while_flat_opens_long() {
    let t = template("");
    let a = t.on_bar(true, Compare::Greater, Compare::Less, Compare::Equal, 3500.5f64.to_bits());
    assert_eq!(a, vec![BarAction::CancelAll, order(Direction::Long, Offset::Open, 3500.5)]);
}

#[test]
fn crossunder_while_flat_opens_short() {
    let t = template("");
    let a = t.on_bar(true, Compare::Less, Compare::Greater, Compare::Equal, 12.25f64.to_bits());
    assert_eq!(a, vec![BarAction::CancelAll, order(Direction::Short, Offset::Open, 12.25)]);
}

#[test]
fn crossover_while_short_covers_then_buys() {
    let t = template("");
    let a = t.on_bar(true, Compare::Greater, Compare::Less, Compare::Less, 99.0f64.to_bits());
    assert_eq!(
        a,
        vec![
            BarAction::CancelAll,
            order(Direction::Long, Offset::Close, 99.0),
            order(Direction::Long, Offset::Open, 99.0),
        ]
    );
}

#[test]
fn crossunder_while_long_sells_then_shorts() {
    let t = template("");
    let a = t.on_bar(true, Compare::Less, Compare::Greater, Compare::Greater, 7.5f64.to_bits());
    assert_eq!(
        a,
        vec![
            BarAction::CancelAll,
            order(Direction::Short, Offset::Close, 7.5),
            order(Direction::Short, Offset::Open, 7.5),
        ]
    );
}

#[test]
fn crossover_while_long_only_cancels() {
    let t = template("");
    let a = t.on_bar(true, Compare::Greater, Compare::Less, Compare::Greater, 1.0f64.to_bits());
    assert_eq!(a, vec![BarAction::CancelAll]);
}

#[test]
fn bar_without_history_only_cancels() {
    let t = template("");
    let a = t.on_bar(false, Compare::Greater, Compare::Less, Compare::Equal, 1.0f64.to_bits());
    assert_eq!(a, vec![BarAction::CancelAll]);
}

#[test]
fn bar_without_cross_only_cancels() {
    let t = template("");
    let a = t.on_bar(true, Compare::Greater, Compare::Greater, Compare::Equal, 1.0f64.to_bits());
    assert_eq!(a, vec![BarAction::CancelAll]);
}

#[test]
fn unordered_position_submits_nothing() {
    let t = template("");
    let a = t.on_bar(true, Compare::Greater, Compare::Less, Compare::Unordered, 1.0f64.to_bits());
    assert_eq!(a, vec![BarAction::CancelAll]);
}

#[test]
fn order_builders() {
    let t = template("");
    let b = t.buy(5, 2, true, false, true);
    assert_eq!(b.direction, Direction::Long);
    assert_eq!(b.offset, Offset::Open);
    assert_eq!((b.price_bits, b.volume, b.stop, b.lock, b.net), (5, 2, true, false, true));
    let s = t.sell(5, 2, false, true, false);
    assert_eq!((s.direction, s.offset), (Direction::Short, Offset::Close));
    let sh = t.short(5, 2, false, false, false);
    assert_eq!((sh.direction, sh.offset), (Direction::Short, Offset::Open));
    let c = t.cover(5, 2, false, false, false);
    assert_eq!((c.direction, c.offset), (Direction::Long, Offset::Close));
}
