//! The host's callback table and the boundary calls each host service makes.
use vstd::prelude::*;

verus! {

/// The number of slots in the host's callback table.
pub const V_TABLE_LEN: usize = 5;

/// The host services, in the order of their slots in the table.
#[derive(Clone, Copy, Debug, PartialEq, Eq, Structural)]
pub enum Slot {
    /// Fetch historical bars; returns a host-owned bar collection.
    LoadBar,
    /// Release a bar collection returned by `LoadBar`.
    DropBars,
    /// Submit an order; returns a host-owned collection of order ids.
    SendOrder,
    /// Release an id collection returned by `SendOrder`.
    DropOrderIds,
    /// Cancel every open order of the instance.
    CancelAll,
}

pub open spec fn slot_index(s: Slot) -> int {
    match s {
        Slot::LoadBar => 0,
        Slot::DropBars => 1,
        Slot::SendOrder => 2,
        Slot::DropOrderIds => 3,
        Slot::CancelAll => 4,
    }
}

impl Slot {
    /// The slot's position in the table.
    pub fn index(self) -> (r: usize)
        ensures
            r == slot_index(self),
            r < V_TABLE_LEN,
    {
        match self {
            Slot::LoadBar => 0,
            Slot::DropBars => 1,
            Slot::SendOrder => 2,
            Slot::DropOrderIds => 3,
            Slot::CancelAll => 4,
        }
    }
}

/// One call across the boundary: which service, at which address.
#[derive(Clone, Copy, Debug, PartialEq, Eq, Structural)]
pub struct BoundaryCall {
    pub slot: Slot,
    pub address: usize,
}

/// The host engine as the strategy sees it: its handle (zero while unbound)
/// and the callback table read from it.
pub struct CtaEngineExtern {
    pub this: usize,
    pub v_table: [usize; V_TABLE_LEN],
}

impl CtaEngineExtern {
    pub open spec fn bound(&self) -> bool {
        self.this != 0
    }

    /// The call of service `s` through this table.
    pub open spec fn call_of(&self, s: Slot) -> BoundaryCall {
        BoundaryCall { slot: s, address: self.v_table@[slot_index(s)] }
    }

    /// The calls that fetching bars makes: the fetch, then exactly one release
    /// of what it returned. `None` while unbound.
    pub open spec fn load_bar_spec(&self) -> Option<Seq<BoundaryCall>> {
        if self.bound() {
            Some(seq![self.call_of(Slot::LoadBar), self.call_of(Slot::DropBars)])
        } else {
            None
        }
    }

    /// The calls that submitting an order makes: the submit, then exactly one
    /// release of the returned ids. `None` while unbound.
    pub open spec fn send_order_spec(&self) -> Option<Seq<BoundaryCall>> {
        if self.bound() {
            Some(seq![self.call_of(Slot::SendOrder), self.call_of(Slot::DropOrderIds)])
        } else {
            None
        }
    }

    pub open spec fn cancel_all_spec(&self) -> Option<Seq<BoundaryCall>> {
        if self.bound() {
            Some(seq![self.call_of(Slot::CancelAll)])
        } else {
            None
        }
    }

    /// An unbound engine over the given table; the handle comes later.
    pub fn new(v_table: [usize; V_TABLE_LEN]) -> (r: Self)
        ensures
            r.this == 0,
            r.v_table@ == v_table@,
    {
        CtaEngineExtern { this: 0, v_table }
    }

    pub fn is_bound(&self) -> (r: bool)
        ensures
            r == self.bound(),
    {
        self.this != 0
    }

    fn call(&self, s: Slot) -> (r: BoundaryCall)
        ensures
            r == self.call_of(s),
    {
        BoundaryCall { slot: s, address: self.v_table[s.index()] }
    }

    pub fn load_bar(&self) -> (r: Option<Vec<BoundaryCall>>)
        ensures
            calls_view(&r) == self.load_bar_spec(),
    {
        if !self.is_bound() {
            return None;
        }
        let v = vec![self.call(Slot::LoadBar), self.call(Slot::DropBars)];
        proof {
            assert(v@ =~= self.load_bar_spec().unwrap());
        }
        Some(v)
    }

    pub fn send_order(&self) -> (r: Option<Vec<BoundaryCall>>)
        ensures
            calls_view(&r) == self.send_order_spec(),
    {
        if !self.is_bound() {
            return None;
        }
        let v = vec![self.call(Slot::SendOrder), self.call(Slot::DropOrderIds)];
        proof {
            assert(v@ =~= self.send_order_spec().unwrap());
        }
        Some(v)
    }

    pub fn cancel_all(&self) -> (r: Option<Vec<BoundaryCall>>)
        ensures
            calls_view(&r) == self.cancel_all_spec(),
    {
        if !self.is_bound() {
            return None;
        }
        let v = vec![self.call(Slot::CancelAll)];
        proof {
            assert(v@ =~= self.cancel_all_spec().unwrap());
        }
        Some(v)
    }
}

pub open spec fn calls_view(r: &Option<Vec<BoundaryCall>>) -> Option<Seq<BoundaryCall>> {
    match r {
        Some(v) => Some(v@),
        None => None,
    }
}

/// How many of `calls` go to service `s`.
pub open spec fn calls_to(calls: Seq<BoundaryCall>, s: Slot) -> nat {
    calls.filter(|c: BoundaryCall| c.slot == s).len()
}

/// Each service that takes a collection from the host releases it exactly
/// once, right after taking it, and invokes nothing else: a bar fetch, and an
/// order submission.
pub proof fn lemma_host_collections_released_once(e: CtaEngineExtern)
    requires
        e.bound(),
    ensures
        e.load_bar_spec() == Some(seq![e.call_of(Slot::LoadBar), e.call_of(Slot::DropBars)]),
        calls_to(e.load_bar_spec().unwrap(), Slot::LoadBar) == 1,
        calls_to(e.load_bar_spec().unwrap(), Slot::DropBars) == 1,
        e.send_order_spec() == Some(
            seq![e.call_of(Slot::SendOrder), e.call_of(Slot::DropOrderIds)],
        ),
        calls_to(e.send_order_spec().unwrap(), Slot::SendOrder) == 1,
        calls_to(e.send_order_spec().unwrap(), Slot::DropOrderIds) == 1,
{
    reveal_with_fuel(Seq::filter, 3);
    let fetch = e.load_bar_spec().unwrap();
    assert(fetch.drop_last() =~= seq![e.call_of(Slot::LoadBar)]);
    assert(fetch.drop_last().drop_last() =~= Seq::<BoundaryCall>::empty());
    let send = e.send_order_spec().unwrap();
    assert(send.drop_last() =~= seq![e.call_of(Slot::SendOrder)]);
    assert(send.drop_last().drop_last() =~= Seq::<BoundaryCall>::empty());
}

} // verus!
