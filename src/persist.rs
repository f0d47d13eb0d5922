//! Durable storage of a device's configuration as one record per pin.

use vstd::prelude::*;
use crate::config::{lemma_map_of_push, map_of, sorted_keys};
use crate::message::{HardwareConfigMessage, MessageView};
use crate::pins::{BCMPinNumber, PinFunction};

verus! {

/// One change to the stored per-pin records.
#[derive(Clone, Copy, Debug, PartialEq, Eq, Structural)]
pub enum StoreOp {
    /// Delete the record of every pin.
    ClearPins,
    /// Write the record of a pin.
    Write(BCMPinNumber, PinFunction),
    /// Delete the record of a pin.
    Delete(BCMPinNumber),
}

/// The stored records after `op`.
pub open spec fn apply_store_op(st: Map<BCMPinNumber, PinFunction>, op: StoreOp) -> Map<
    BCMPinNumber,
    PinFunction,
> {
    match op {
        StoreOp::ClearPins => Map::empty(),
        StoreOp::Write(b, f) => st.insert(b, f),
        StoreOp::Delete(b) => st.remove(b),
    }
}

/// The stored records after `ops`, applied in order.
pub open spec fn apply_store_ops(st: Map<BCMPinNumber, PinFunction>, ops: Seq<StoreOp>) -> Map<
    BCMPinNumber,
    PinFunction,
>
    decreases ops.len(),
{
    if ops.len() == 0 {
        st
    } else {
        apply_store_op(apply_store_ops(st, ops.drop_last()), ops.last())
    }
}

pub open spec fn write_ops(s: Seq<(BCMPinNumber, PinFunction)>) -> Seq<StoreOp> {
    s.map_values(|e: (BCMPinNumber, PinFunction)| StoreOp::Write(e.0, e.1))
}

/// The record changes that store an applied configuration change.
pub open spec fn store_ops_for(m: MessageView) -> Seq<StoreOp> {
    match m {
        MessageView::NewConfig(s) => seq![StoreOp::ClearPins] + write_ops(s),
        MessageView::NewPinConfig(b, None) => seq![StoreOp::Delete(b)],
        MessageView::NewPinConfig(b, Some(f)) => seq![StoreOp::Write(b, f)],
        MessageView::IOLevelChanged(b, l) => seq![
            StoreOp::Write(b, PinFunction::Output(Some(l.new_level))),
        ],
        _ => Seq::empty(),
    }
}

/// The record changes that store an applied configuration change: a new configuration
/// replaces every record, a pin change rewrites or deletes that pin's record, an output level
/// is stored as the pin's output function.
pub fn store_ops(change: &HardwareConfigMessage) -> (r: Vec<StoreOp>)
    ensures
        r@ == store_ops_for(change@),
{
    let mut r: Vec<StoreOp> = Vec::new();
    match change {
        HardwareConfigMessage::NewConfig(c) => {
            r.push(StoreOp::ClearPins);
            let mut i: usize = 0;
            while i < c.configured_pins.len()
                invariant
                    i <= c.entries().len(),
                    r@ == seq![StoreOp::ClearPins] + write_ops(c.entries().take(i as int)),
                decreases c.entries().len() - i,
            {
                let e = c.configured_pins[i];
                r.push(StoreOp::Write(e.0, e.1));
                assert(r@ =~= seq![StoreOp::ClearPins] + write_ops(c.entries().take(i + 1)));
                i = i + 1;
            }
            assert(c.entries().take(i as int) =~= c.entries());
        },
        HardwareConfigMessage::NewPinConfig(b, None) => r.push(StoreOp::Delete(*b)),
        HardwareConfigMessage::NewPinConfig(b, Some(f)) => r.push(StoreOp::Write(*b, *f)),
        HardwareConfigMessage::IOLevelChanged(b, l) => r.push(
            StoreOp::Write(*b, PinFunction::Output(Some(l.new_level))),
        ),
        _ => {},
    }
    assert(r@ =~= store_ops_for(change@));
    r
}

/// Storing a new configuration leaves exactly its entries stored, whatever was stored before.
pub proof fn lemma_store_new_config(st: Map<BCMPinNumber, PinFunction>, s: Seq<(BCMPinNumber, PinFunction)>)
    requires
        sorted_keys(s),
    ensures
        apply_store_ops(st, store_ops_for(MessageView::NewConfig(s))) == map_of(s),
    decreases s.len(),
{
    let ops = store_ops_for(MessageView::NewConfig(s));
    if s.len() == 0 {
        assert(ops.drop_last() =~= Seq::<StoreOp>::empty());
        assert(map_of(s) =~= Map::<BCMPinNumber, PinFunction>::empty());
    } else {
        let t = s.drop_last();
        lemma_map_of_push(s);
        lemma_store_new_config(st, t);
        assert(ops.drop_last() =~= store_ops_for(MessageView::NewConfig(t)));
    }
}

/// Storing the same new configuration twice leaves the same records as storing it once.
pub proof fn lemma_store_new_config_idempotent(
    st: Map<BCMPinNumber, PinFunction>,
    s: Seq<(BCMPinNumber, PinFunction)>,
)
    requires
        sorted_keys(s),
    ensures
        apply_store_ops(
            apply_store_ops(st, store_ops_for(MessageView::NewConfig(s))),
            store_ops_for(MessageView::NewConfig(s)),
        ) == apply_store_ops(st, store_ops_for(MessageView::NewConfig(s))),
{
    lemma_store_new_config(st, s);
    lemma_store_new_config(apply_store_ops(st, store_ops_for(MessageView::NewConfig(s))), s);
}

} // verus!
