//! The strategy instance: its parameters, its life cycle and the decisions it
//! takes on each bar.
use vstd::prelude::*;

use crate::engine::{calls_view, BoundaryCall, CtaEngineExtern, V_TABLE_LEN};
use crate::meta::parameters;
use crate::setting::{
    decimal_value, entries_of, fits_i64, lookup, lookup_value, merge, merge_params, parse_i64,
    parse_setting, parse_setting_entries, Entry, Param,
};

verus! {

/// The declared parameters with their defaults.
pub open spec fn default_setting() -> Seq<char> {
    "fast_window:10,slow_window:20"@
}

/// A window length given as text, when it is a decimal integer that fits.
pub open spec fn window_value(v: Option<Seq<char>>) -> Option<i64> {
    match v {
        Some(t) => if decimal_value(t) is Some && fits_i64(decimal_value(t).unwrap()) {
            Some(decimal_value(t).unwrap() as i64)
        } else {
            None
        },
        None => None,
    }
}

/// The two window lengths of a parameter set.
pub open spec fn windows_of(m: Seq<Entry>) -> Option<(i64, i64)> {
    match (window_value(lookup(m, "fast_window"@)), window_value(lookup(m, "slow_window"@))) {
        (Some(f), Some(s)) => Some((f, s)),
        _ => None,
    }
}

/// The window lengths that a setting-string gives, merged over the defaults.
pub open spec fn setting_windows(setting: Seq<char>) -> Option<(i64, i64)> {
    match (parse_setting(setting), parse_setting(default_setting())) {
        (Some(c), Some(d)) => windows_of(merge(c, d)),
        _ => None,
    }
}

fn window(m: &Vec<Param>, key: &String) -> (r: Option<i64>)
    ensures
        r == window_value(lookup(entries_of(m@), key@)),
{
    match lookup_value(m, key) {
        Some(v) => parse_i64(v.as_str()),
        None => None,
    }
}

/// Where the strategy is in its life cycle.
#[derive(Clone, Copy, Debug, PartialEq, Eq, Structural)]
pub enum Phase {
    Created,
    Initialized,
    Trading,
    Stopped,
}

/// Order side.
#[derive(Clone, Copy, Debug, PartialEq, Eq, Structural)]
pub enum Direction {
    Long,
    Short,
}

/// Order intent: open new exposure, or close existing exposure.
#[derive(Clone, Copy, Debug, PartialEq, Eq, Structural)]
pub enum Offset {
    Open,
    Close,
}

/// An order to submit. The price is the bit pattern of the host's price,
/// handed through unchanged; the volume counts whole units.
#[derive(Clone, Copy, Debug, PartialEq, Eq, Structural)]
pub struct OrderRequest {
    pub direction: Direction,
    pub offset: Offset,
    pub price_bits: u64,
    pub volume: u64,
    pub stop: bool,
    pub lock: bool,
    pub net: bool,
}

pub open spec fn request(
    direction: Direction,
    offset: Offset,
    price_bits: u64,
    volume: u64,
    stop: bool,
    lock: bool,
    net: bool,
) -> OrderRequest {
    OrderRequest { direction, offset, price_bits, volume, stop, lock, net }
}

/// How one value stands to another; `Unordered` when either is not a number.
#[derive(Clone, Copy, Debug, PartialEq, Eq, Structural)]
pub enum Compare {
    Less,
    Equal,
    Greater,
    Unordered,
}

/// What the fast average did against the slow one between two samples.
#[derive(Clone, Copy, Debug, PartialEq, Eq, Structural)]
pub enum Cross {
    /// It rose from below to above.
    Over,
    /// It fell from above to below.
    Under,
    Neither,
}

/// One step of the strategy's work on a bar, in the order given.
#[derive(Clone, Copy, Debug, PartialEq, Eq, Structural)]
pub enum BarAction {
    CancelAll,
    Submit(OrderRequest),
}

pub open spec fn cross_of(now: Compare, prev: Compare) -> Cross {
    if now == Compare::Greater && prev == Compare::Less {
        Cross::Over
    } else if now == Compare::Less && prev == Compare::Greater {
        Cross::Under
    } else {
        Cross::Neither
    }
}

/// The orders a crossover calls for, given how the position stands to zero.
pub open spec fn cross_orders(cross: Cross, position: Compare, price_bits: u64) -> Seq<
    OrderRequest,
> {
    let buy = request(Direction::Long, Offset::Open, price_bits, 1, false, false, false);
    let sell = request(Direction::Short, Offset::Close, price_bits, 1, false, false, false);
    let short = request(Direction::Short, Offset::Open, price_bits, 1, false, false, false);
    let cover = request(Direction::Long, Offset::Close, price_bits, 1, false, false, false);
    match cross {
        Cross::Over => match position {
            Compare::Equal => seq![buy],
            Compare::Less => seq![cover, buy],
            _ => seq![],
        },
        Cross::Under => match position {
            Compare::Equal => seq![short],
            Compare::Greater => seq![sell, short],
            _ => seq![],
        },
        Cross::Neither => seq![],
    }
}

/// The work on one bar: cancel all open orders; then, once the window holds
/// enough history, the orders that a crossover calls for at the bar's close.
pub open spec fn bar_actions(
    ready: bool,
    now: Compare,
    prev: Compare,
    position: Compare,
    close_bits: u64,
) -> Seq<BarAction> {
    seq![BarAction::CancelAll] + if ready {
        cross_orders(cross_of(now, prev), position, close_bits).map_values(
            |o: OrderRequest| BarAction::Submit(o),
        )
    } else {
        Seq::<BarAction>::empty()
    }
}

/// Detects a crossover from how the fast average stood to the slow one now
/// and on the previous sample.
pub fn detect_cross(now: Compare, prev: Compare) -> (r: Cross)
    ensures
        r == cross_of(now, prev),
{
    if now == Compare::Greater && prev == Compare::Less {
        Cross::Over
    } else if now == Compare::Less && prev == Compare::Greater {
        Cross::Under
    } else {
        Cross::Neither
    }
}

/// A strategy instance, but for the scalars and collaborators that the host
/// side holds.
pub struct CtaTemplate {
    pub cta_engine: CtaEngineExtern,
    pub strategy_name: String,
    pub vt_symbol: String,
    pub inited: bool,
    pub trading: bool,
    pub fast_window: i64,
    pub slow_window: i64,
    pub phase: Phase,
}

impl CtaTemplate {
    /// Builds an instance from the host's table, its name, its symbol and a
    /// setting-string merged over the declared defaults. `None` when the
    /// setting-string is malformed or a window is not an integer.
    pub fn new(
        v_table: [usize; V_TABLE_LEN],
        strategy_name: String,
        vt_symbol: String,
        setting: &str,
    ) -> (r: Option<Self>)
        ensures
            match setting_windows(setting@) {
                Some((f, s)) => r is Some && r.unwrap().fast_window == f && r.unwrap().slow_window
                    == s && r.unwrap().strategy_name@ == strategy_name@ && r.unwrap().vt_symbol@
                    == vt_symbol@ && r.unwrap().cta_engine.this == 0
                    && r.unwrap().cta_engine.v_table@ == v_table@ && !r.unwrap().inited
                    && !r.unwrap().trading && r.unwrap().phase == Phase::Created,
                None => r is None,
            },
    {
        let caller = match parse_setting_entries(setting) {
            Some(c) => c,
            None => return None,
        };
        let defaults = match parse_setting_entries(parameters()) {
            Some(d) => d,
            None => return None,
        };
        let merged = merge_params(&caller, &defaults);
        let fast_window = match window(&merged, &String::from_str("fast_window")) {
            Some(f) => f,
            None => return None,
        };
        let slow_window = match window(&merged, &String::from_str("slow_window")) {
            Some(s) => s,
            None => return None,
        };
        Some(
            CtaTemplate {
                cta_engine: CtaEngineExtern::new(v_table),
                strategy_name,
                vt_symbol,
                inited: false,
                trading: false,
                fast_window,
                slow_window,
                phase: Phase::Created,
            },
        )
    }

    /// Binds the host handle, which creation does not need, and marks the
    /// instance initialized.
    pub fn on_init(&mut self, cta_engine: usize)
        ensures
            final(self).cta_engine.this == cta_engine,
            final(self).cta_engine.v_table == old(self).cta_engine.v_table,
            final(self).phase == Phase::Initialized,
            final(self).strategy_name == old(self).strategy_name,
            final(self).vt_symbol == old(self).vt_symbol,
            final(self).inited == old(self).inited,
            final(self).trading == old(self).trading,
            final(self).fast_window == old(self).fast_window,
            final(self).slow_window == old(self).slow_window,
    {
        self.cta_engine.this = cta_engine;
        self.phase = Phase::Initialized;
    }

    /// Starts the strategy. The host-visible `trading` flag is left to the
    /// host.
    pub fn on_start(&mut self)
        ensures
            final(self).phase == Phase::Trading,
            final(self).trading == old(self).trading,
            final(self).inited == old(self).inited,
            final(self).cta_engine == old(self).cta_engine,
            final(self).strategy_name == old(self).strategy_name,
            final(self).vt_symbol == old(self).vt_symbol,
            final(self).fast_window == old(self).fast_window,
            final(self).slow_window == old(self).slow_window,
    {
        self.phase = Phase::Trading;
    }

    pub fn on_stop(&mut self)
        ensures
            final(self).phase == Phase::Stopped,
            final(self).trading == old(self).trading,
            final(self).inited == old(self).inited,
            final(self).cta_engine == old(self).cta_engine,
            final(self).strategy_name == old(self).strategy_name,
            final(self).vt_symbol == old(self).vt_symbol,
            final(self).fast_window == old(self).fast_window,
            final(self).slow_window == old(self).slow_window,
    {
        self.phase = Phase::Stopped;
    }

    /// Open long.
    pub fn buy(&self, price_bits: u64, volume: u64, stop: bool, lock: bool, net: bool) -> (r:
        OrderRequest)
        ensures
            r == request(Direction::Long, Offset::Open, price_bits, volume, stop, lock, net),
    {
        OrderRequest { direction: Direction::Long, offset: Offset::Open, price_bits, volume, stop, lock, net }
    }

    /// Close long.
    pub fn sell(&self, price_bits: u64, volume: u64, stop: bool, lock: bool, net: bool) -> (r:
        OrderRequest)
        ensures
            r == request(Direction::Short, Offset::Close, price_bits, volume, stop, lock, net),
    {
        OrderRequest { direction: Direction::Short, offset: Offset::Close, price_bits, volume, stop, lock, net }
    }

    /// Open short.
    pub fn short(&self, price_bits: u64, volume: u64, stop: bool, lock: bool, net: bool) -> (r:
        OrderRequest)
        ensures
            r == request(Direction::Short, Offset::Open, price_bits, volume, stop, lock, net),
    {
        OrderRequest { direction: Direction::Short, offset: Offset::Open, price_bits, volume, stop, lock, net }
    }

    /// Close short.
    pub fn cover(&self, price_bits: u64, volume: u64, stop: bool, lock: bool, net: bool) -> (r:
        OrderRequest)
        ensures
            r == request(Direction::Long, Offset::Close, price_bits, volume, stop, lock, net),
    {
        OrderRequest { direction: Direction::Long, offset: Offset::Close, price_bits, volume, stop, lock, net }
    }

    /// The boundary calls that submitting an order makes: none at all while
    /// not trading, whatever the handle; `None` (fatal) when trading unbound.
    pub open spec fn send_order_calls(&self) -> Option<Seq<BoundaryCall>> {
        if self.trading {
            self.cta_engine.send_order_spec()
        } else {
            Some(Seq::<BoundaryCall>::empty())
        }
    }

    pub fn send_order(&self) -> (r: Option<Vec<BoundaryCall>>)
        ensures
            calls_view(&r) == self.send_order_calls(),
    {
        if self.trading {
            self.cta_engine.send_order()
        } else {
            let v: Vec<BoundaryCall> = Vec::new();
            proof {
                assert(v@ =~= Seq::<BoundaryCall>::empty());
            }
            Some(v)
        }
    }

    pub fn cancel_all(&self) -> (r: Option<Vec<BoundaryCall>>)
        ensures
            calls_view(&r) == self.cta_engine.cancel_all_spec(),
    {
        self.cta_engine.cancel_all()
    }

    pub fn load_bar(&self) -> (r: Option<Vec<BoundaryCall>>)
        ensures
            calls_view(&r) == self.cta_engine.load_bar_spec(),
    {
        self.cta_engine.load_bar()
    }

    /// The work on a completed bar. `ready` tells whether the rolling window
    /// holds enough history after taking the bar; `now` and `prev` how the
    /// fast average stands to the slow one on this sample and the previous
    /// one; `position` how the net position stands to zero; `close_bits` the
    /// bar's close price.
    pub fn on_bar(
        &self,
        ready: bool,
        now: Compare,
        prev: Compare,
        position: Compare,
        close_bits: u64,
    ) -> (r: Vec<BarAction>)
        ensures
            r@ == bar_actions(ready, now, prev, position, close_bits),
    {
        let mut actions: Vec<BarAction> = vec![BarAction::CancelAll];
        let ghost orders = cross_orders(cross_of(now, prev), position, close_bits);
        if !ready {
            proof {
                assert(actions@ =~= bar_actions(ready, now, prev, position, close_bits));
            }
            return actions;
        }
        let cross = detect_cross(now, prev);
        match cross {
            Cross::Over => {
                if position == Compare::Equal {
                    actions.push(BarAction::Submit(self.buy(close_bits, 1, false, false, false)));
                } else if position == Compare::Less {
                    actions.push(BarAction::Submit(self.cover(close_bits, 1, false, false, false)));
                    actions.push(BarAction::Submit(self.buy(close_bits, 1, false, false, false)));
                }
            },
            Cross::Under => {
                if position == Compare::Equal {
                    actions.push(BarAction::Submit(self.short(close_bits, 1, false, false, false)));
                } else if position == Compare::Greater {
                    actions.push(BarAction::Submit(self.sell(close_bits, 1, false, false, false)));
                    actions.push(BarAction::Submit(self.short(close_bits, 1, false, false, false)));
                }
            },
            Cross::Neither => {},
        }
        proof {
            assert(actions@ =~= bar_actions(ready, now, prev, position, close_bits));
        }
        actions
    }
}

/// Every bar's work begins with cancelling all open orders, and everything
/// after that is an order submission.
pub proof fn lemma_bar_cancels_first(
    ready: bool,
    now: Compare,
    prev: Compare,
    position: Compare,
    close_bits: u64,
)
    ensures
        bar_actions(ready, now, prev, position, close_bits).len() >= 1,
        bar_actions(ready, now, prev, position, close_bits)[0] == BarAction::CancelAll,
        forall|i: int|
            1 <= i < bar_actions(ready, now, prev, position, close_bits).len() ==> (
            #[trigger] bar_actions(ready, now, prev, position, close_bits)[i]) is Submit,
{
}

/// A crossover while flat opens exactly one long at the bar's close for one
/// unit; a cross-under while flat opens exactly one short.
pub proof fn lemma_cross_while_flat(close_bits: u64)
    ensures
        bar_actions(true, Compare::Greater, Compare::Less, Compare::Equal, close_bits) == seq![
            BarAction::CancelAll,
            BarAction::Submit(
                request(Direction::Long, Offset::Open, close_bits, 1, false, false, false),
            ),
        ],
        bar_actions(true, Compare::Less, Compare::Greater, Compare::Equal, close_bits) == seq![
            BarAction::CancelAll,
            BarAction::Submit(
                request(Direction::Short, Offset::Open, close_bits, 1, false, false, false),
            ),
        ],
{
    assert(bar_actions(true, Compare::Greater, Compare::Less, Compare::Equal, close_bits) =~= seq![
        BarAction::CancelAll,
        BarAction::Submit(request(Direction::Long, Offset::Open, close_bits, 1, false, false, false)),
    ]);
    assert(bar_actions(true, Compare::Less, Compare::Greater, Compare::Equal, close_bits) =~= seq![
        BarAction::CancelAll,
        BarAction::Submit(request(Direction::Short, Offset::Open, close_bits, 1, false, false, false)),
    ]);
}

/// A crossover while short submits exactly two orders: first close the short,
/// then open a long; the mirror case while long closes the long, then opens a
/// short.
pub proof fn lemma_cross_reverses_position(close_bits: u64)
    ensures
        bar_actions(true, Compare::Greater, Compare::Less, Compare::Less, close_bits) == seq![
            BarAction::CancelAll,
            BarAction::Submit(
                request(Direction::Long, Offset::Close, close_bits, 1, false, false, false),
            ),
            BarAction::Submit(
                request(Direction::Long, Offset::Open, close_bits, 1, false, false, false),
            ),
        ],
        bar_actions(true, Compare::Less, Compare::Greater, Compare::Greater, close_bits) == seq![
            BarAction::CancelAll,
            BarAction::Submit(
                request(Direction::Short, Offset::Close, close_bits, 1, false, false, false),
            ),
            BarAction::Submit(
                request(Direction::Short, Offset::Open, close_bits, 1, false, false, false),
            ),
        ],
{
    assert(bar_actions(true, Compare::Greater, Compare::Less, Compare::Less, close_bits) =~= seq![
        BarAction::CancelAll,
        BarAction::Submit(request(Direction::Long, Offset::Close, close_bits, 1, false, false, false)),
        BarAction::Submit(request(Direction::Long, Offset::Open, close_bits, 1, false, false, false)),
    ]);
    assert(bar_actions(true, Compare::Less, Compare::Greater, Compare::Greater, close_bits) =~= seq![
        BarAction::CancelAll,
        BarAction::Submit(request(Direction::Short, Offset::Close, close_bits, 1, false, false, false)),
        BarAction::Submit(request(Direction::Short, Offset::Open, close_bits, 1, false, false, false)),
    ]);
}

/// While not trading, submitting an order makes no boundary call at all, and
/// so yields no order ids.
pub proof fn lemma_no_calls_unless_trading(t: CtaTemplate)
    requires
        !t.trading,
    ensures
        t.send_order_calls() == Some(Seq::<BoundaryCall>::empty()),
{
}

} // verus!
