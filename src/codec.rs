//! The wire encoding of protocol messages: enum tags and option flags as one byte, pin numbers
//! as one byte, unsigned integers as little-endian base-128 varints, a configuration as its
//! entry count followed by its entries in increasing pin order. The encoding carries no length
//! prefix of its own; each transport frames it.

use vstd::prelude::*;
use crate::config::{sorted_keys, GPIOConfig};
use crate::message::{HardwareConfigMessage, LevelChange, MessageView, Uptime};
use crate::pins::{BCMPinNumber, HardwareDescription, HardwareDetails, InputPull, PinDescription, PinFunction};

verus! {

/// The bytes at `pos` in `b` are `e`.
pub open spec fn at(b: Seq<u8>, pos: int, e: Seq<u8>) -> bool {
    &&& 0 <= pos
    &&& pos + e.len() <= b.len()
    &&& b.subrange(pos, pos + e.len()) == e
}

pub proof fn lemma_at_split(b: Seq<u8>, pos: int, e1: Seq<u8>, e2: Seq<u8>)
    ensures
        at(b, pos, e1 + e2) <==> (at(b, pos, e1) && at(b, pos + e1.len(), e2)),
{
    if at(b, pos, e1 + e2) {
        let s = b.subrange(pos, pos + e1.len() + e2.len());
        assert(s == e1 + e2);
        assert(b.subrange(pos, pos + e1.len()) =~= s.subrange(0, e1.len() as int));
        assert(s.subrange(0, e1.len() as int) =~= e1);
        assert(b.subrange(pos + e1.len(), pos + e1.len() + e2.len()) =~= s.subrange(
            e1.len() as int,
            (e1.len() + e2.len()) as int,
        ));
        assert(s.subrange(e1.len() as int, (e1.len() + e2.len()) as int) =~= e2);
    }
    if at(b, pos, e1) && at(b, pos + e1.len(), e2) {
        assert(b.subrange(pos, pos + (e1 + e2).len()) =~= e1 + e2);
    }
}

/// Base-128 varint, least significant group first, high bit set on all but the last byte.
pub open spec fn varint(n: nat) -> Seq<u8>
    decreases n,
{
    if n < 128 {
        seq![n as u8]
    } else {
        seq![(n % 128 + 128) as u8] + varint(n / 128)
    }
}

pub proof fn lemma_varint_prefix_free(b: Seq<u8>, pos: int, n: nat, m: nat)
    requires
        at(b, pos, varint(n)),
        at(b, pos, varint(m)),
    ensures
        n == m,
    decreases n,
{
    if n < 128 {
        assert(b[pos] == varint(n)[0]);
        assert(b[pos] == varint(m)[0]);
    } else {
        lemma_at_split(b, pos, seq![(n % 128 + 128) as u8], varint(n / 128));
        assert(b[pos] == varint(n)[0]);
        assert(b[pos] == varint(m)[0]);
        lemma_at_split(b, pos, seq![(m % 128 + 128) as u8], varint(m / 128));
        lemma_varint_prefix_free(b, pos + 1, n / 128, m / 128);
    }
}

proof fn lemma_varint_nonempty(n: nat)
    ensures
        varint(n).len() >= 1,
        varint(n)[0] < 128 <==> n < 128,
        n < 128 ==> varint(n) == seq![n as u8],
{
}

/// Append the varint of `n`.
pub(crate) fn write_varint(out: &mut Vec<u8>, n: u64)
    ensures
        final(out)@ == old(out)@ + varint(n as nat),
    decreases n,
{
    if n < 128 {
        out.push(n as u8);
        assert(varint(n as nat) == seq![n as u8]);
    } else {
        let ghost before = out@;
        out.push((n % 128 + 128) as u8);
        write_varint(out, n / 128);
        assert(out@ =~= before + varint(n as nat));
    }
}

/// Read a varint of value at most `max` at `pos`.
pub(crate) fn read_varint(b: &[u8], pos: usize, max: u64) -> (r: Option<(u64, usize)>)
    requires
        pos <= b@.len(),
    ensures
        match r {
            Some((n, p)) => n <= max && p == pos + varint(n as nat).len() && at(
                b@,
                pos as int,
                varint(n as nat),
            ),
            None => forall|n: nat| n <= max ==> !#[trigger] at(b@, pos as int, varint(n)),
        },
    decreases b@.len() - pos,
{
    if pos >= b.len() {
        return None;
    }
    let x = b[pos];
    if x < 128 {
        if x as u64 > max {
            proof {
                assert forall|n: nat| n <= max implies !#[trigger] at(b@, pos as int, varint(n)) by {
                    if at(b@, pos as int, varint(n)) {
                        lemma_varint_nonempty(n);
                        assert(b@[pos as int] == varint(n)[0]);
                    }
                }
            }
            return None;
        }
        proof {
            assert(b@.subrange(pos as int, pos + 1) =~= seq![x]);
        }
        return Some((x as u64, pos + 1));
    }
    let low = (x - 128) as u64;
    if low > max || max - low < 128 {
        proof {
            assert forall|n: nat| n <= max implies !#[trigger] at(b@, pos as int, varint(n)) by {
                if at(b@, pos as int, varint(n)) {
                    lemma_varint_nonempty(n);
                    assert(b@[pos as int] == varint(n)[0]);
                    assert(n >= 128);
                    assert(n % 128 == low);
                    assert(n >= 128 + n % 128) by (nonlinear_arith)
                        requires
                            n >= 128,
                    ;
                }
            }
        }
        return None;
    }
    let rest_max = (max - low) / 128;
    let ghost cont = |n: nat| seq![(n % 128 + 128) as u8];
    match read_varint(b, pos + 1, rest_max) {
        None => {
            proof {
                assert forall|n: nat| n <= max implies !#[trigger] at(b@, pos as int, varint(n)) by {
                    if at(b@, pos as int, varint(n)) {
                        lemma_varint_nonempty(n);
                        assert(b@[pos as int] == varint(n)[0]);
                        lemma_at_split(b@, pos as int, seq![(n % 128 + 128) as u8], varint(n / 128));
                        assert(n % 128 == low);
                        assert(n / 128 <= rest_max) by (nonlinear_arith)
                            requires
                                n <= max,
                                n % 128 == low,
                                rest_max == (max - low) / 128,
                                low <= max,
                        ;
                        assert(at(b@, pos + 1, varint(n / 128)));
                    }
                }
            }
            None
        },
        Some((rest, p)) => {
            if rest == 0 {
                proof {
                    assert forall|n: nat| n <= max implies !#[trigger] at(b@, pos as int, varint(n)) by {
                        if at(b@, pos as int, varint(n)) {
                            lemma_varint_nonempty(n);
                            assert(b@[pos as int] == varint(n)[0]);
                            lemma_at_split(
                                b@,
                                pos as int,
                                seq![(n % 128 + 128) as u8],
                                varint(n / 128),
                            );
                            lemma_varint_prefix_free(b@, pos + 1, n / 128, 0);
                        }
                    }
                }
                return None;
            }
            let n = low + 128 * rest;
            proof {
                assert(128 * rest <= max - low) by (nonlinear_arith)
                    requires
                        rest <= rest_max,
                        rest_max == (max - low) / 128,
                        low <= max,
                ;
                assert(n % 128 == low && n / 128 == rest) by (nonlinear_arith)
                    requires
                        n == low + 128 * rest,
                        low < 128,
                ;
                assert(varint(n as nat) == seq![(n % 128 + 128) as u8] + varint(rest as nat));
                assert(b@.subrange(pos as int, pos + 1) =~= seq![(n % 128 + 128) as u8]);
                lemma_at_split(b@, pos as int, seq![(n % 128 + 128) as u8], varint(rest as nat));
            }
            Some((n, p))
        },
    }
}


pub open spec fn pull_tag(p: InputPull) -> u8 {
    match p {
        InputPull::PullUp => 0,
        InputPull::PullDown => 1,
        InputPull::NoPull => 2,
    }
}

pub open spec fn encode_bool(v: bool) -> Seq<u8> {
    if v {
        seq![1u8]
    } else {
        seq![0u8]
    }
}

pub open spec fn encode_option_pull(p: Option<InputPull>) -> Seq<u8> {
    match p {
        None => seq![0u8],
        Some(x) => seq![1u8, pull_tag(x)],
    }
}

pub open spec fn encode_option_bool(v: Option<bool>) -> Seq<u8> {
    match v {
        None => seq![0u8],
        Some(x) => seq![1u8] + encode_bool(x),
    }
}

pub open spec fn encode_function(f: PinFunction) -> Seq<u8> {
    match f {
        PinFunction::Unassigned => seq![0u8],
        PinFunction::Ground => seq![1u8],
        PinFunction::Power3V3 => seq![2u8],
        PinFunction::Power5V => seq![3u8],
        PinFunction::Input(p) => seq![4u8] + encode_option_pull(p),
        PinFunction::Output(l) => seq![5u8] + encode_option_bool(l),
        PinFunction::I2C_EEPROM_ID_SD => seq![6u8],
        PinFunction::I2C_EEPROM_ID_SC => seq![7u8],
    }
}

pub open spec fn encode_option_function(f: Option<PinFunction>) -> Seq<u8> {
    match f {
        None => seq![0u8],
        Some(x) => seq![1u8] + encode_function(x),
    }
}

pub open spec fn encode_level_change(l: LevelChange) -> Seq<u8> {
    encode_bool(l.new_level) + varint(l.timestamp.secs as nat) + varint(l.timestamp.nanos as nat)
}

pub open spec fn encode_entry(e: (BCMPinNumber, PinFunction)) -> Seq<u8> {
    seq![e.0] + encode_function(e.1)
}

pub open spec fn encode_entries(s: Seq<(BCMPinNumber, PinFunction)>) -> Seq<u8>
    decreases s.len(),
{
    if s.len() == 0 {
        Seq::empty()
    } else {
        encode_entries(s.drop_last()) + encode_entry(s.last())
    }
}

/// The bytes of a message.
pub open spec fn encode_message(m: MessageView) -> Seq<u8> {
    match m {
        MessageView::NewConfig(s) => seq![0u8] + varint(s.len()) + encode_entries(s),
        MessageView::NewPinConfig(p, f) => seq![1u8, p] + encode_option_function(f),
        MessageView::IOLevelChanged(p, l) => seq![2u8, p] + encode_level_change(l),
        MessageView::GetConfig => seq![3u8],
        MessageView::Disconnect => seq![4u8],
    }
}

pub(crate) proof fn lemma_at_first(b: Seq<u8>, pos: int, e: Seq<u8>)
    requires
        at(b, pos, e),
        e.len() >= 1,
    ensures
        b[pos] == e[0],
{
    assert(b.subrange(pos, pos + e.len())[0] == e[0]);
}

pub proof fn lemma_bool_prefix_free(b: Seq<u8>, pos: int, x: bool, y: bool)
    requires
        at(b, pos, encode_bool(x)),
        at(b, pos, encode_bool(y)),
    ensures
        x == y,
{
    lemma_at_first(b, pos, encode_bool(x));
    lemma_at_first(b, pos, encode_bool(y));
}

pub proof fn lemma_function_prefix_free(b: Seq<u8>, pos: int, f: PinFunction, g: PinFunction)
    requires
        at(b, pos, encode_function(f)),
        at(b, pos, encode_function(g)),
    ensures
        f == g,
{
    lemma_at_first(b, pos, encode_function(f));
    lemma_at_first(b, pos, encode_function(g));
    match f {
        PinFunction::Input(p) => {
            if let PinFunction::Input(q) = g {
                lemma_at_split(b, pos, seq![4u8], encode_option_pull(p));
                lemma_at_split(b, pos, seq![4u8], encode_option_pull(q));
                lemma_at_first(b, pos + 1, encode_option_pull(p));
                lemma_at_first(b, pos + 1, encode_option_pull(q));
                if p is Some && q is Some {
                    assert(b.subrange(pos + 1, pos + 3)[1] == b[pos + 2]);
                    assert(encode_option_pull(p)[1] == b[pos + 2]);
                    assert(encode_option_pull(q)[1] == b[pos + 2]);
                }
            }
        },
        PinFunction::Output(l) => {
            if let PinFunction::Output(k) = g {
                lemma_at_split(b, pos, seq![5u8], encode_option_bool(l));
                lemma_at_split(b, pos, seq![5u8], encode_option_bool(k));
                lemma_at_first(b, pos + 1, encode_option_bool(l));
                lemma_at_first(b, pos + 1, encode_option_bool(k));
                if l is Some && k is Some {
                    lemma_at_split(b, pos + 1, seq![1u8], encode_bool(l->Some_0));
                    lemma_at_split(b, pos + 1, seq![1u8], encode_bool(k->Some_0));
                    lemma_bool_prefix_free(b, pos + 2, l->Some_0, k->Some_0);
                }
            }
        },
        _ => {},
    }
}

pub proof fn lemma_entry_prefix_free(
    b: Seq<u8>,
    pos: int,
    e: (BCMPinNumber, PinFunction),
    d: (BCMPinNumber, PinFunction),
)
    requires
        at(b, pos, encode_entry(e)),
        at(b, pos, encode_entry(d)),
    ensures
        e == d,
{
    lemma_at_split(b, pos, seq![e.0], encode_function(e.1));
    lemma_at_split(b, pos, seq![d.0], encode_function(d.1));
    lemma_at_first(b, pos, seq![e.0]);
    lemma_at_first(b, pos, seq![d.0]);
    lemma_function_prefix_free(b, pos + 1, e.1, d.1);
}

pub proof fn lemma_entries_prefix_free(
    b: Seq<u8>,
    pos: int,
    s: Seq<(BCMPinNumber, PinFunction)>,
    t: Seq<(BCMPinNumber, PinFunction)>,
)
    requires
        s.len() == t.len(),
        at(b, pos, encode_entries(s)),
        at(b, pos, encode_entries(t)),
    ensures
        s == t,
    decreases s.len(),
{
    if s.len() > 0 {
        lemma_at_split(b, pos, encode_entries(s.drop_last()), encode_entry(s.last()));
        lemma_at_split(b, pos, encode_entries(t.drop_last()), encode_entry(t.last()));
        lemma_entries_prefix_free(b, pos, s.drop_last(), t.drop_last());
        lemma_entry_prefix_free(b, pos + encode_entries(s.drop_last()).len(), s.last(), t.last());
        assert(s =~= s.drop_last().push(s.last()));
        assert(t =~= t.drop_last().push(t.last()));
    } else {
        assert(s =~= t);
    }
}

/// The entries of a prefix of `s` are encoded at the start of the entries of `s`.
pub proof fn lemma_entries_prefix(s: Seq<(BCMPinNumber, PinFunction)>, i: int)
    requires
        0 <= i <= s.len(),
    ensures
        encode_entries(s.take(i)).len() <= encode_entries(s).len(),
        encode_entries(s).subrange(0, encode_entries(s.take(i)).len() as int) == encode_entries(
            s.take(i),
        ),
    decreases s.len() - i,
{
    let whole = encode_entries(s);
    if i == s.len() {
        assert(s.take(i) =~= s);
        assert(whole.subrange(0, whole.len() as int) =~= whole);
    } else {
        lemma_entries_prefix(s, i + 1);
        assert(s.take(i + 1).drop_last() =~= s.take(i));
        let a = encode_entries(s.take(i));
        let a1 = encode_entries(s.take(i + 1));
        assert(a1 == a + encode_entry(s[i]));
        assert(whole.subrange(0, a.len() as int) =~= a1.subrange(0, a.len() as int));
        assert(a1.subrange(0, a.len() as int) =~= a);
    }
}

pub(crate) proof fn lemma_at_prefix(b: Seq<u8>, pos: int, e: Seq<u8>, k: int)
    requires
        at(b, pos, e),
        0 <= k <= e.len(),
    ensures
        at(b, pos, e.subrange(0, k)),
{
    assert(b.subrange(pos, pos + k) =~= b.subrange(pos, pos + e.len()).subrange(0, k));
}

/// Strictly increasing pin numbers: at most one entry per possible pin.
pub proof fn lemma_sorted_len(s: Seq<(BCMPinNumber, PinFunction)>)
    requires
        sorted_keys(s),
    ensures
        s.len() <= 256,
{
    assert forall|i: int| 0 <= i < s.len() implies s[i].0 >= i by {
        lemma_sorted_key_bound(s, i);
    }
    if s.len() > 256 {
        assert(s[256].0 >= 256);
    }
}

proof fn lemma_sorted_key_bound(s: Seq<(BCMPinNumber, PinFunction)>, i: int)
    requires
        sorted_keys(s),
        0 <= i < s.len(),
    ensures
        s[i].0 >= i,
    decreases i,
{
    if i > 0 {
        lemma_sorted_key_bound(s, i - 1);
        assert(s[i - 1].0 < s[i].0);
    }
}


pub(crate) proof fn lemma_at_one(b: Seq<u8>, pos: int)
    requires
        0 <= pos < b.len(),
    ensures
        at(b, pos, seq![b[pos]]),
{
    assert(b.subrange(pos, pos + 1) =~= seq![b[pos]]);
}

fn write_bool(out: &mut Vec<u8>, v: bool)
    ensures
        final(out)@ == old(out)@ + encode_bool(v),
{
    out.push(if v { 1u8 } else { 0u8 });
}

fn write_function(out: &mut Vec<u8>, f: PinFunction)
    ensures
        final(out)@ == old(out)@ + encode_function(f),
{
    let ghost before = out@;
    match f {
        PinFunction::Unassigned => out.push(0),
        PinFunction::Ground => out.push(1),
        PinFunction::Power3V3 => out.push(2),
        PinFunction::Power5V => out.push(3),
        PinFunction::Input(p) => {
            out.push(4);
            match p {
                None => out.push(0),
                Some(x) => {
                    out.push(1);
                    out.push(
                        match x {
                            InputPull::PullUp => 0,
                            InputPull::PullDown => 1,
                            InputPull::NoPull => 2,
                        },
                    );
                },
            }
        },
        PinFunction::Output(l) => {
            out.push(5);
            match l {
                None => out.push(0),
                Some(v) => {
                    out.push(1);
                    write_bool(out, v);
                },
            }
        },
        PinFunction::I2C_EEPROM_ID_SD => out.push(6),
        PinFunction::I2C_EEPROM_ID_SC => out.push(7),
    }
    assert(out@ =~= before + encode_function(f));
}

fn write_level_change(out: &mut Vec<u8>, l: LevelChange)
    ensures
        final(out)@ == old(out)@ + encode_level_change(l),
{
    let ghost before = out@;
    write_bool(out, l.new_level);
    write_varint(out, l.timestamp.secs);
    write_varint(out, l.timestamp.nanos as u64);
    assert(out@ =~= before + encode_level_change(l));
}

fn write_entries(out: &mut Vec<u8>, entries: &Vec<(BCMPinNumber, PinFunction)>)
    ensures
        final(out)@ == old(out)@ + encode_entries(entries@),
{
    let ghost before = out@;
    let mut i: usize = 0;
    while i < entries.len()
        invariant
            i <= entries@.len(),
            out@ == before + encode_entries(entries@.take(i as int)),
        decreases entries@.len() - i,
    {
        let e = entries[i];
        out.push(e.0);
        write_function(out, e.1);
        proof {
            assert(entries@.take(i + 1).drop_last() =~= entries@.take(i as int));
        }
        assert(out@ =~= before + encode_entries(entries@.take(i + 1)));
        i = i + 1;
    }
    assert(entries@.take(i as int) =~= entries@);
}

/// The bytes of the message `NewConfig` carrying `c`, encoded without copying `c`.
pub fn encode_config_message(c: &GPIOConfig) -> (r: Vec<u8>)
    ensures
        r@ == encode_message(MessageView::NewConfig(c.entries())),
{
    let mut out: Vec<u8> = Vec::new();
    out.push(0);
    write_varint(&mut out, c.configured_pins.len() as u64);
    write_entries(&mut out, &c.configured_pins);
    assert(out@ =~= encode_message(MessageView::NewConfig(c.entries())));
    out
}

/// A configuration on its own: its entry count, then its entries.
pub open spec fn encode_config(s: Seq<(BCMPinNumber, PinFunction)>) -> Seq<u8> {
    varint(s.len()) + encode_entries(s)
}

/// The bytes of a configuration on its own, the answer to a get-config request.
pub fn encode_config_entries(c: &GPIOConfig) -> (r: Vec<u8>)
    ensures
        r@ == encode_config(c.entries()),
{
    let mut out: Vec<u8> = Vec::new();
    write_varint(&mut out, c.configured_pins.len() as u64);
    write_entries(&mut out, &c.configured_pins);
    assert(out@ =~= encode_config(c.entries()));
    out
}

/// The bytes of `m` on the wire.
pub fn encode(m: &HardwareConfigMessage) -> (r: Vec<u8>)
    ensures
        r@ == encode_message(m@),
{
    let mut out: Vec<u8> = Vec::new();
    match m {
        HardwareConfigMessage::NewConfig(c) => {
            return encode_config_message(c);
        },
        HardwareConfigMessage::NewPinConfig(p, f) => {
            out.push(1);
            out.push(*p);
            match f {
                None => out.push(0),
                Some(x) => {
                    out.push(1);
                    write_function(&mut out, *x);
                },
            }
        },
        HardwareConfigMessage::IOLevelChanged(p, l) => {
            out.push(2);
            out.push(*p);
            write_level_change(&mut out, *l);
        },
        HardwareConfigMessage::GetConfig => out.push(3),
        HardwareConfigMessage::Disconnect => out.push(4),
    }
    assert(out@ =~= encode_message(m@));
    out
}


pub(crate) fn read_bool(b: &[u8], pos: usize) -> (r: Option<(bool, usize)>)
    requires
        pos <= b@.len(),
    ensures
        match r {
            Some((v, p)) => p == pos + 1 && at(b@, pos as int, encode_bool(v)),
            None => forall|v: bool| !#[trigger] at(b@, pos as int, encode_bool(v)),
        },
{
    if pos < b.len() && b[pos] < 2 {
        proof {
            lemma_at_one(b@, pos as int);
        }
        Some((b[pos] == 1, pos + 1))
    } else {
        proof {
            assert forall|v: bool| !#[trigger] at(b@, pos as int, encode_bool(v)) by {
                if at(b@, pos as int, encode_bool(v)) {
                    lemma_at_first(b@, pos as int, encode_bool(v));
                }
            }
        }
        None
    }
}

pub(crate) fn read_function(b: &[u8], pos: usize) -> (r: Option<(PinFunction, usize)>)
    requires
        pos <= b@.len(),
    ensures
        match r {
            Some((f, p)) => p == pos + encode_function(f).len() && at(
                b@,
                pos as int,
                encode_function(f),
            ),
            None => forall|f: PinFunction| !#[trigger] at(b@, pos as int, encode_function(f)),
        },
{
    if pos >= b.len() {
        return None;
    }
    proof {
        lemma_at_one(b@, pos as int);
    }
    let tag = b[pos];
    let simple = match tag {
        0 => Some(PinFunction::Unassigned),
        1 => Some(PinFunction::Ground),
        2 => Some(PinFunction::Power3V3),
        3 => Some(PinFunction::Power5V),
        6 => Some(PinFunction::I2C_EEPROM_ID_SD),
        7 => Some(PinFunction::I2C_EEPROM_ID_SC),
        _ => None,
    };
    if let Some(f) = simple {
        return Some((f, pos + 1));
    }
    let next = pos + 1;
    if tag == 4 && next < b.len() {
        proof {
            lemma_at_one(b@, next as int);
        }
        let flag = b[next];
        if flag == 0 {
            proof {
                lemma_at_split(b@, pos as int, seq![4u8], seq![0u8]);
                assert(encode_function(PinFunction::Input(None)) == seq![4u8] + seq![0u8]);
            }
            return Some((PinFunction::Input(None), next + 1));
        }
        if flag == 1 && next + 1 < b.len() && b[next + 1] < 3 {
            let pull = if b[next + 1] == 0 {
                InputPull::PullUp
            } else if b[next + 1] == 1 {
                InputPull::PullDown
            } else {
                InputPull::NoPull
            };
            proof {
                assert(b@.subrange(pos as int, pos + 3) =~= encode_function(PinFunction::Input(Some(pull))));
            }
            return Some((PinFunction::Input(Some(pull)), next + 2));
        }
    }
    if tag == 5 && next < b.len() {
        proof {
            lemma_at_one(b@, next as int);
        }
        let flag = b[next];
        if flag == 0 {
            proof {
                lemma_at_split(b@, pos as int, seq![5u8], seq![0u8]);
                assert(encode_function(PinFunction::Output(None)) == seq![5u8] + seq![0u8]);
            }
            return Some((PinFunction::Output(None), next + 1));
        }
        if flag == 1 {
            if let Some((v, p)) = read_bool(b, next + 1) {
                proof {
                    lemma_at_split(b@, pos as int, seq![5u8], seq![1u8]);
                    lemma_at_split(b@, pos as int, seq![5u8] + seq![1u8], encode_bool(v));
                    assert(encode_function(PinFunction::Output(Some(v))) =~= seq![5u8] + seq![1u8]
                        + encode_bool(v));
                }
                return Some((PinFunction::Output(Some(v)), p));
            }
        }
    }
    proof {
        assert forall|f: PinFunction| !#[trigger] at(b@, pos as int, encode_function(f)) by {
            if at(b@, pos as int, encode_function(f)) {
                lemma_at_first(b@, pos as int, encode_function(f));
                match f {
                    PinFunction::Input(pl) => {
                        lemma_at_split(b@, pos as int, seq![4u8], encode_option_pull(pl));
                        lemma_at_first(b@, pos + 1, encode_option_pull(pl));
                        if let Some(x) = pl {
                            assert(b@.subrange(pos as int, pos + 3)[2] == b@[pos + 2]);
                        }
                    },
                    PinFunction::Output(l) => {
                        lemma_at_split(b@, pos as int, seq![5u8], encode_option_bool(l));
                        lemma_at_first(b@, pos + 1, encode_option_bool(l));
                        if let Some(v) = l {
                            lemma_at_split(b@, pos + 1, seq![1u8], encode_bool(v));
                        }
                    },
                    _ => {},
                }
            }
        }
    }
    None
}

fn read_option_function(b: &[u8], pos: usize) -> (r: Option<(Option<PinFunction>, usize)>)
    requires
        pos <= b@.len(),
    ensures
        match r {
            Some((f, p)) => p == pos + encode_option_function(f).len() && at(
                b@,
                pos as int,
                encode_option_function(f),
            ),
            None => forall|f: Option<PinFunction>|
                !#[trigger] at(b@, pos as int, encode_option_function(f)),
        },
{
    if pos < b.len() {
        proof {
            lemma_at_one(b@, pos as int);
        }
        if b[pos] == 0 {
            return Some((None, pos + 1));
        }
        if b[pos] == 1 {
            if let Some((f, p)) = read_function(b, pos + 1) {
                proof {
                    lemma_at_split(b@, pos as int, seq![1u8], encode_function(f));
                }
                return Some((Some(f), p));
            }
        }
    }
    proof {
        assert forall|f: Option<PinFunction>| !#[trigger] at(b@, pos as int, encode_option_function(f)) by {
            if at(b@, pos as int, encode_option_function(f)) {
                lemma_at_first(b@, pos as int, encode_option_function(f));
                if let Some(x) = f {
                    lemma_at_split(b@, pos as int, seq![1u8], encode_function(x));
                }
            }
        }
    }
    None
}

fn read_level_change(b: &[u8], pos: usize) -> (r: Option<(LevelChange, usize)>)
    requires
        pos <= b@.len(),
    ensures
        match r {
            Some((l, p)) => p == pos + encode_level_change(l).len() && at(
                b@,
                pos as int,
                encode_level_change(l),
            ),
            None => forall|l: LevelChange| !#[trigger] at(b@, pos as int, encode_level_change(l)),
        },
{
    let ghost enc = |l: LevelChange| encode_level_change(l);
    proof {
        assert forall|l: LevelChange| #[trigger] at(b@, pos as int, encode_level_change(l)) implies {
            &&& at(b@, pos as int, encode_bool(l.new_level))
            &&& at(b@, pos + 1, varint(l.timestamp.secs as nat))
            &&& at(b@, pos + 1 + varint(l.timestamp.secs as nat).len(), varint(l.timestamp.nanos as nat))
        } by {
            let e1 = encode_bool(l.new_level);
            let e2 = varint(l.timestamp.secs as nat);
            let e3 = varint(l.timestamp.nanos as nat);
            lemma_at_split(b@, pos as int, e1 + e2, e3);
            lemma_at_split(b@, pos as int, e1, e2);
        }
    }
    let (v, p1) = match read_bool(b, pos) {
        Some(x) => x,
        None => return None,
    };
    let (secs, p2) = match read_varint(b, p1, u64::MAX) {
        Some(x) => x,
        None => {
            proof {
                assert forall|l: LevelChange| !#[trigger] at(b@, pos as int, encode_level_change(l)) by {
                    if at(b@, pos as int, encode_level_change(l)) {
                        assert(at(b@, p1 as int, varint(l.timestamp.secs as nat)));
                    }
                }
            }
            return None;
        },
    };
    let (nanos, p3) = match read_varint(b, p2, u32::MAX as u64) {
        Some(x) => x,
        None => {
            proof {
                assert forall|l: LevelChange| !#[trigger] at(b@, pos as int, encode_level_change(l)) by {
                    if at(b@, pos as int, encode_level_change(l)) {
                        lemma_varint_prefix_free(b@, p1 as int, secs as nat, l.timestamp.secs as nat);
                        assert(at(b@, p2 as int, varint(l.timestamp.nanos as nat)));
                    }
                }
            }
            return None;
        },
    };
    let l = LevelChange { new_level: v, timestamp: Uptime { secs, nanos: nanos as u32 } };
    proof {
        lemma_at_split(b@, pos as int, encode_bool(v), varint(secs as nat));
        lemma_at_split(b@, pos as int, encode_bool(v) + varint(secs as nat), varint(nanos as nat));
    }
    Some((l, p3))
}

/// The candidates for `count` entries encoded at `pos`.
pub open spec fn entries_at(
    b: Seq<u8>,
    pos: int,
    count: nat,
    s: Seq<(BCMPinNumber, PinFunction)>,
) -> bool {
    &&& sorted_keys(s)
    &&& s.len() == count
    &&& at(b, pos, encode_entries(s))
}

pub(crate) fn read_entries(b: &[u8], pos: usize, count: usize) -> (r: Option<
    (Vec<(BCMPinNumber, PinFunction)>, usize),
>)
    requires
        pos <= b@.len(),
    ensures
        match r {
            Some((v, p)) => entries_at(b@, pos as int, count as nat, v@) && p == pos
                + encode_entries(v@).len(),
            None => forall|s: Seq<(BCMPinNumber, PinFunction)>|
                !#[trigger] entries_at(b@, pos as int, count as nat, s),
        },
{
    let mut v: Vec<(BCMPinNumber, PinFunction)> = Vec::new();
    let mut cur = pos;
    let mut i: usize = 0;
    assert(at(b@, pos as int, encode_entries(v@))) by {
        assert(b@.subrange(pos as int, pos as int) =~= Seq::<u8>::empty());
    }
    while i < count
        invariant
            i <= count,
            v@.len() == i,
            sorted_keys(v@),
            pos <= cur <= b@.len(),
            cur == pos + encode_entries(v@).len(),
            at(b@, pos as int, encode_entries(v@)),
            forall|s: Seq<(BCMPinNumber, PinFunction)>|
                #[trigger] entries_at(b@, pos as int, count as nat, s) ==> s.take(i as int) == v@,
        decreases count - i,
    {
        let fr = if cur < b.len() {
            Some(b[cur])
        } else {
            None
        };
        let key_ok = match fr {
            Some(k) => i == 0 || v[i - 1].0 < k,
            None => false,
        };
        let rf = if key_ok {
            read_function(b, cur + 1)
        } else {
            None
        };
        match rf {
            Some((f, p)) => {
                let k = fr.unwrap();
                let ghost old_v = v@;
                v.push((k, f));
                proof {
                    lemma_at_one(b@, cur as int);
                    lemma_at_split(b@, cur as int, seq![k], encode_function(f));
                    assert(v@.drop_last() =~= old_v);
                    assert(encode_entries(v@) == encode_entries(old_v) + encode_entry((k, f)));
                    lemma_at_split(b@, pos as int, encode_entries(old_v), encode_entry((k, f)));
                    assert forall|x: int, y: int| 0 <= x < y < v@.len() implies v@[x].0 < v@[y].0 by {
                        if y < i {
                            assert(old_v[x].0 < old_v[y].0);
                        } else if x < i - 1 {
                            assert(old_v[x].0 < old_v[i - 1].0);
                        }
                    }
                    assert forall|s: Seq<(BCMPinNumber, PinFunction)>|
                        #[trigger] entries_at(b@, pos as int, count as nat, s) implies s.take(i + 1) == v@ by {
                        assert(s.take(i as int) == old_v);
                        lemma_entries_prefix(s, i + 1);
                        lemma_at_prefix(b@, pos as int, encode_entries(s), encode_entries(s.take(i + 1)).len() as int);
                        assert(s.take(i + 1).drop_last() =~= s.take(i as int));
                        lemma_at_split(b@, pos as int, encode_entries(old_v), encode_entry(s[i as int]));
                        lemma_entry_prefix_free(b@, cur as int, s[i as int], (k, f));
                        assert(s.take(i + 1) =~= old_v.push(s[i as int]));
                    }
                }
                cur = p;
                i = i + 1;
            },
            None => {
                proof {
                    assert forall|s: Seq<(BCMPinNumber, PinFunction)>|
                        !#[trigger] entries_at(b@, pos as int, count as nat, s) by {
                        if entries_at(b@, pos as int, count as nat, s) {
                            assert(s.take(i as int) == v@);
                            lemma_entries_prefix(s, i + 1);
                            lemma_at_prefix(b@, pos as int, encode_entries(s), encode_entries(s.take(i + 1)).len() as int);
                            assert(s.take(i + 1).drop_last() =~= s.take(i as int));
                            lemma_at_split(b@, pos as int, encode_entries(v@), encode_entry(s[i as int]));
                            lemma_at_split(b@, cur as int, seq![s[i as int].0], encode_function(s[i as int].1));
                            lemma_at_first(b@, cur as int, seq![s[i as int].0]);
                            if i > 0 {
                                assert(s[i - 1] == v@[i - 1]);
                                assert(s[i - 1].0 < s[i as int].0);
                            }
                        }
                    }
                }
                return None;
            },
        }
    }
    proof {
        assert forall|s: Seq<(BCMPinNumber, PinFunction)>|
            #[trigger] entries_at(b@, pos as int, count as nat, s) implies s == v@ by {
            assert(s.take(i as int) =~= s);
        }
    }
    Some((v, cur))
}


pub proof fn lemma_option_function_prefix_free(
    b: Seq<u8>,
    pos: int,
    f: Option<PinFunction>,
    g: Option<PinFunction>,
)
    requires
        at(b, pos, encode_option_function(f)),
        at(b, pos, encode_option_function(g)),
    ensures
        f == g,
{
    lemma_at_first(b, pos, encode_option_function(f));
    lemma_at_first(b, pos, encode_option_function(g));
    if f is Some && g is Some {
        lemma_at_split(b, pos, seq![1u8], encode_function(f->Some_0));
        lemma_at_split(b, pos, seq![1u8], encode_function(g->Some_0));
        lemma_function_prefix_free(b, pos + 1, f->Some_0, g->Some_0);
    }
}

pub proof fn lemma_level_change_prefix_free(b: Seq<u8>, pos: int, l: LevelChange, k: LevelChange)
    requires
        at(b, pos, encode_level_change(l)),
        at(b, pos, encode_level_change(k)),
    ensures
        l == k,
{
    lemma_at_split(b, pos, encode_bool(l.new_level) + varint(l.timestamp.secs as nat), varint(l.timestamp.nanos as nat));
    lemma_at_split(b, pos, encode_bool(l.new_level), varint(l.timestamp.secs as nat));
    lemma_at_split(b, pos, encode_bool(k.new_level) + varint(k.timestamp.secs as nat), varint(k.timestamp.nanos as nat));
    lemma_at_split(b, pos, encode_bool(k.new_level), varint(k.timestamp.secs as nat));
    lemma_bool_prefix_free(b, pos, l.new_level, k.new_level);
    lemma_varint_prefix_free(b, pos + 1, l.timestamp.secs as nat, k.timestamp.secs as nat);
    lemma_varint_prefix_free(
        b,
        pos + 1 + varint(l.timestamp.secs as nat).len(),
        l.timestamp.nanos as nat,
        k.timestamp.nanos as nat,
    );
}

/// Two well-formed messages with the same encoding are the same message.
pub proof fn lemma_encoding_injective(m: MessageView, d: MessageView)
    requires
        m.wf(),
        d.wf(),
        encode_message(m) == encode_message(d),
    ensures
        m == d,
{
    let b = encode_message(m);
    assert(at(b, 0, b)) by {
        assert(b.subrange(0, b.len() as int) =~= b);
    }
    assert(b[0] == encode_message(d)[0]);
    lemma_message_tag(m);
    lemma_message_tag(d);
    match (m, d) {
        (MessageView::NewConfig(s), MessageView::NewConfig(t)) => {
            lemma_at_split(b, 0, seq![0u8] + varint(s.len()), encode_entries(s));
            lemma_at_split(b, 0, seq![0u8], varint(s.len()));
            lemma_at_split(b, 0, seq![0u8] + varint(t.len()), encode_entries(t));
            lemma_at_split(b, 0, seq![0u8], varint(t.len()));
            lemma_varint_prefix_free(b, 1, s.len(), t.len());
            lemma_entries_prefix_free(b, 1 + varint(s.len()).len() as int, s, t);
        },
        (MessageView::NewPinConfig(p, f), MessageView::NewPinConfig(q, g)) => {
            lemma_at_split(b, 0, seq![1u8, p], encode_option_function(f));
            lemma_at_split(b, 0, seq![1u8, q], encode_option_function(g));
            assert(b[1] == p && b[1] == q);
            lemma_option_function_prefix_free(b, 2, f, g);
        },
        (MessageView::IOLevelChanged(p, l), MessageView::IOLevelChanged(q, k)) => {
            lemma_at_split(b, 0, seq![2u8, p], encode_level_change(l));
            lemma_at_split(b, 0, seq![2u8, q], encode_level_change(k));
            assert(b[1] == p && b[1] == q);
            lemma_level_change_prefix_free(b, 2, l, k);
        },
        _ => {},
    }
}

/// A buffer that cannot be decoded into a message.
#[derive(Clone, Copy, Debug, PartialEq, Eq, Structural)]
pub struct DecodeError;

/// Some well-formed message is encoded as exactly `b`.
pub open spec fn is_encoding(b: Seq<u8>) -> bool {
    exists|m: MessageView| m.wf() && encode_message(m) == b
}

/// The message whose encoding is exactly `b`, if there is one.
pub open spec fn decoded(b: Seq<u8>) -> Option<MessageView> {
    if is_encoding(b) {
        Some(choose|m: MessageView| m.wf() && encode_message(m) == b)
    } else {
        None
    }
}

/// Decoding the encoding of a well-formed message gives that message back.
pub proof fn lemma_round_trip(m: MessageView)
    requires
        m.wf(),
    ensures
        decoded(encode_message(m)) == Some(m),
{
    let b = encode_message(m);
    assert(is_encoding(b));
    let d = choose|d: MessageView| d.wf() && encode_message(d) == b;
    lemma_encoding_injective(m, d);
}

/// Decode a whole buffer as one message. A buffer that is empty, truncated, corrupted, or
/// longer than one message is refused.
pub fn decode(b: &[u8]) -> (r: Result<HardwareConfigMessage, DecodeError>)
    ensures
        match r {
            Ok(m) => m.wf() && encode_message(m@) == b@ && decoded(b@) == Some(m@),
            Err(_) => decoded(b@) is None,
        },
{
    let r = decode_checked(b);
    proof {
        if r is Ok {
            lemma_round_trip(r->Ok_0@);
        }
    }
    r
}

pub open spec fn message_tag(m: MessageView) -> u8 {
    match m {
        MessageView::NewConfig(_) => 0,
        MessageView::NewPinConfig(_, _) => 1,
        MessageView::IOLevelChanged(_, _) => 2,
        MessageView::GetConfig => 3,
        MessageView::Disconnect => 4,
    }
}

proof fn lemma_message_tag(m: MessageView)
    ensures
        encode_message(m).len() >= 1,
        encode_message(m)[0] == message_tag(m),
        m is GetConfig || m is Disconnect ==> encode_message(m).len() == 1,
{
}

fn decode_new_config(b: &[u8]) -> (r: Result<HardwareConfigMessage, DecodeError>)
    requires
        b@.len() >= 1,
    ensures
        match r {
            Ok(m) => m.wf() && encode_message(m@) == b@,
            Err(_) => forall|s: Seq<(BCMPinNumber, PinFunction)>|
                sorted_keys(s) ==> #[trigger] encode_message(MessageView::NewConfig(s)) != b@,
        },
{
    let len = b.len();
    assert(at(b@, 0, b@)) by {
        assert(b@.subrange(0, b@.len() as int) =~= b@);
    }
    proof {
        assert forall|s: Seq<(BCMPinNumber, PinFunction)>|
            sorted_keys(s) && #[trigger] encode_message(MessageView::NewConfig(s)) == b@ implies {
            &&& at(b@, 1, varint(s.len()))
            &&& at(b@, 1 + varint(s.len()).len() as int, encode_entries(s))
            &&& 1 + varint(s.len()).len() + encode_entries(s).len() == b@.len()
            &&& s.len() <= 256
        } by {
            lemma_at_split(b@, 0, seq![0u8] + varint(s.len()), encode_entries(s));
            lemma_at_split(b@, 0, seq![0u8], varint(s.len()));
            lemma_sorted_len(s);
        }
    }
    let (count, p) = match read_varint(b, 1, 256) {
        Some(x) => x,
        None => return Err(DecodeError),
    };
    let (v, p2) = match read_entries(b, p, count as usize) {
        Some(x) => x,
        None => {
            proof {
                assert forall|s: Seq<(BCMPinNumber, PinFunction)>| sorted_keys(s) implies #[trigger] encode_message(
                    MessageView::NewConfig(s),
                ) != b@ by {
                    if encode_message(MessageView::NewConfig(s)) == b@ {
                        lemma_varint_prefix_free(b@, 1, s.len(), count as nat);
                        assert(entries_at(b@, p as int, count as nat, s));
                    }
                }
            }
            return Err(DecodeError);
        },
    };
    if p2 != len || b[0] != 0 {
        proof {
            assert forall|s: Seq<(BCMPinNumber, PinFunction)>| sorted_keys(s) implies #[trigger] encode_message(
                MessageView::NewConfig(s),
            ) != b@ by {
                if encode_message(MessageView::NewConfig(s)) == b@ {
                    lemma_message_tag(MessageView::NewConfig(s));
                    lemma_varint_prefix_free(b@, 1, s.len(), count as nat);
                    lemma_entries_prefix_free(b@, p as int, s, v@);
                }
            }
        }
        return Err(DecodeError);
    }
    let m = HardwareConfigMessage::NewConfig(GPIOConfig { configured_pins: v });
    proof {
        lemma_at_one(b@, 0);
        lemma_at_split(b@, 0, seq![0u8], varint(count as nat));
        lemma_at_split(b@, 0, seq![0u8] + varint(count as nat), encode_entries(v@));
        assert(b@.subrange(0, len as int) =~= b@);
    }
    Ok(m)
}

fn decode_pin_config(b: &[u8]) -> (r: Result<HardwareConfigMessage, DecodeError>)
    requires
        b@.len() >= 1,
    ensures
        match r {
            Ok(m) => m.wf() && encode_message(m@) == b@,
            Err(_) => forall|p: BCMPinNumber, f: Option<PinFunction>|
                #[trigger] encode_message(MessageView::NewPinConfig(p, f)) != b@,
        },
{
    let len = b.len();
    proof {
        assert forall|p: BCMPinNumber, f: Option<PinFunction>|
            #[trigger] encode_message(MessageView::NewPinConfig(p, f)) == b@ implies {
            &&& b@[0] == 1 && b@[1] == p
            &&& at(b@, 2, encode_option_function(f))
            &&& 2 + encode_option_function(f).len() == b@.len()
        } by {
            assert(at(b@, 0, b@)) by {
                assert(b@.subrange(0, b@.len() as int) =~= b@);
            }
            lemma_at_split(b@, 0, seq![1u8, p], encode_option_function(f));
        }
    }
    if len < 2 || b[0] != 1 {
        return Err(DecodeError);
    }
    let pin = b[1];
    let (f, p2) = match read_option_function(b, 2) {
        Some(x) => x,
        None => return Err(DecodeError),
    };
    if p2 != len {
        proof {
            assert forall|p: BCMPinNumber, g: Option<PinFunction>|
                #[trigger] encode_message(MessageView::NewPinConfig(p, g)) != b@ by {
                if encode_message(MessageView::NewPinConfig(p, g)) == b@ {
                    lemma_option_function_prefix_free(b@, 2, f, g);
                }
            }
        }
        return Err(DecodeError);
    }
    let m = HardwareConfigMessage::NewPinConfig(pin, f);
    proof {
        assert(b@.subrange(0, 2) =~= seq![1u8, pin]);
        lemma_at_split(b@, 0, seq![1u8, pin], encode_option_function(f));
        assert(b@.subrange(0, len as int) =~= b@);
    }
    Ok(m)
}

fn decode_level_changed(b: &[u8]) -> (r: Result<HardwareConfigMessage, DecodeError>)
    requires
        b@.len() >= 1,
    ensures
        match r {
            Ok(m) => m.wf() && encode_message(m@) == b@,
            Err(_) => forall|p: BCMPinNumber, l: LevelChange|
                #[trigger] encode_message(MessageView::IOLevelChanged(p, l)) != b@,
        },
{
    let len = b.len();
    proof {
        assert forall|p: BCMPinNumber, l: LevelChange|
            #[trigger] encode_message(MessageView::IOLevelChanged(p, l)) == b@ implies {
            &&& b@[0] == 2 && b@[1] == p
            &&& at(b@, 2, encode_level_change(l))
            &&& 2 + encode_level_change(l).len() == b@.len()
        } by {
            assert(at(b@, 0, b@)) by {
                assert(b@.subrange(0, b@.len() as int) =~= b@);
            }
            lemma_at_split(b@, 0, seq![2u8, p], encode_level_change(l));
        }
    }
    if len < 2 || b[0] != 2 {
        return Err(DecodeError);
    }
    let pin = b[1];
    let (l, p2) = match read_level_change(b, 2) {
        Some(x) => x,
        None => return Err(DecodeError),
    };
    if p2 != len {
        proof {
            assert forall|p: BCMPinNumber, k: LevelChange|
                #[trigger] encode_message(MessageView::IOLevelChanged(p, k)) != b@ by {
                if encode_message(MessageView::IOLevelChanged(p, k)) == b@ {
                    lemma_level_change_prefix_free(b@, 2, l, k);
                }
            }
        }
        return Err(DecodeError);
    }
    let m = HardwareConfigMessage::IOLevelChanged(pin, l);
    proof {
        assert(b@.subrange(0, 2) =~= seq![2u8, pin]);
        lemma_at_split(b@, 0, seq![2u8, pin], encode_level_change(l));
        assert(b@.subrange(0, len as int) =~= b@);
    }
    Ok(m)
}

fn decode_checked(b: &[u8]) -> (r: Result<HardwareConfigMessage, DecodeError>)
    ensures
        match r {
            Ok(m) => m.wf() && encode_message(m@) == b@,
            Err(_) => !is_encoding(b@),
        },
{
    if b.len() == 0 {
        proof {
            assert forall|m: MessageView| m.wf() implies encode_message(m) != b@ by {
                lemma_message_tag(m);
            }
        }
        return Err(DecodeError);
    }
    let tag = b[0];
    let r = if tag == 0 {
        decode_new_config(b)
    } else if tag == 1 {
        decode_pin_config(b)
    } else if tag == 2 {
        decode_level_changed(b)
    } else if tag == 3 && b.len() == 1 {
        proof {
            assert(b@ =~= seq![3u8]);
        }
        Ok(HardwareConfigMessage::GetConfig)
    } else if tag == 4 && b.len() == 1 {
        proof {
            assert(b@ =~= seq![4u8]);
        }
        Ok(HardwareConfigMessage::Disconnect)
    } else {
        Err(DecodeError)
    };
    proof {
        if r is Err {
            assert forall|m: MessageView| m.wf() implies encode_message(m) != b@ by {
                lemma_message_tag(m);
                match m {
                    MessageView::NewConfig(s) => {},
                    MessageView::NewPinConfig(p, f) => {},
                    MessageView::IOLevelChanged(p, l) => {},
                    _ => {},
                }
            }
        }
    }
    r
}


/// A string: its UTF-8 length as a varint, then its UTF-8 bytes.
pub open spec fn encode_str(s: Seq<char>) -> Seq<u8> {
    varint(vstd::utf8::encode_utf8(s).len()) + vstd::utf8::encode_utf8(s)
}

pub open spec fn encode_option_u8(v: Option<u8>) -> Seq<u8> {
    match v {
        None => seq![0u8],
        Some(x) => seq![1u8, x],
    }
}

pub open spec fn encode_functions(s: Seq<PinFunction>) -> Seq<u8>
    decreases s.len(),
{
    if s.len() == 0 {
        Seq::empty()
    } else {
        encode_functions(s.drop_last()) + encode_function(s.last())
    }
}

pub open spec fn encode_pin(p: PinDescription) -> Seq<u8> {
    seq![p.board_pin_number] + encode_option_u8(p.bcm_pin_number) + encode_str(p.name@) + varint(
        p.options@.len(),
    ) + encode_functions(p.options@)
}

pub open spec fn encode_pins(s: Seq<PinDescription>) -> Seq<u8>
    decreases s.len(),
{
    if s.len() == 0 {
        Seq::empty()
    } else {
        encode_pins(s.drop_last()) + encode_pin(s.last())
    }
}

pub open spec fn details_head(hardware: Seq<char>, revision: Seq<char>, serial: Seq<char>, model: Seq<char>) -> Seq<u8> {
    encode_str(hardware) + encode_str(revision) + encode_str(serial) + encode_str(model)
}

pub open spec fn details_tail(wifi: bool, app_name: Seq<char>, app_version: Seq<char>) -> Seq<u8> {
    encode_bool(wifi) + encode_str(app_name) + encode_str(app_version)
}

/// The details: hardware, revision, serial and model, the Wi-Fi flag, then the application's
/// name and version.
pub open spec fn encode_details(d: HardwareDetails) -> Seq<u8> {
    details_head(d.hardware@, d.revision@, d.serial@, d.model@) + details_tail(
        d.wifi,
        d.app_name@,
        d.app_version@,
    )
}

/// What a device sends first on a new connection: its description, then its configuration.
pub open spec fn encode_handshake(desc: HardwareDescription, entries: Seq<(BCMPinNumber, PinFunction)>) -> Seq<u8> {
    encode_details(desc.details) + varint(desc.pins@.len()) + encode_pins(desc.pins@) + varint(
        entries.len(),
    ) + encode_entries(entries)
}

pub(crate) fn write_str(out: &mut Vec<u8>, s: &String)
    ensures
        final(out)@ == old(out)@ + encode_str(s@),
{
    let bytes = s.as_str().as_bytes();
    let ghost before = out@;
    write_varint(out, bytes.len() as u64);
    let ghost mid = out@;
    let mut i: usize = 0;
    while i < bytes.len()
        invariant
            i <= bytes@.len(),
            out@ == mid + bytes@.take(i as int),
        decreases bytes@.len() - i,
    {
        out.push(bytes[i]);
        assert(out@ =~= mid + bytes@.take(i + 1));
        i = i + 1;
    }
    assert(bytes@.take(i as int) =~= bytes@);
    assert(out@ =~= before + encode_str(s@));
}

fn write_pin(out: &mut Vec<u8>, p: &PinDescription)
    ensures
        final(out)@ == old(out)@ + encode_pin(*p),
{
    let ghost before = out@;
    out.push(p.board_pin_number);
    match p.bcm_pin_number {
        None => out.push(0),
        Some(b) => {
            out.push(1);
            out.push(b);
        },
    }
    write_str(out, &p.name);
    write_varint(out, p.options.len() as u64);
    let ghost mid = out@;
    let mut i: usize = 0;
    while i < p.options.len()
        invariant
            i <= p.options@.len(),
            out@ == mid + encode_functions(p.options@.take(i as int)),
        decreases p.options@.len() - i,
    {
        write_function(out, p.options[i]);
        proof {
            assert(p.options@.take(i + 1).drop_last() =~= p.options@.take(i as int));
        }
        i = i + 1;
    }
    assert(p.options@.take(i as int) =~= p.options@);
    assert(out@ =~= before + encode_pin(*p));
}

fn write_details(out: &mut Vec<u8>, d: &HardwareDetails)
    ensures
        final(out)@ == old(out)@ + encode_details(*d),
{
    let ghost before = out@;
    write_str(out, &d.hardware);
    write_str(out, &d.revision);
    write_str(out, &d.serial);
    write_str(out, &d.model);
    write_bool(out, d.wifi);
    write_str(out, &d.app_name);
    write_str(out, &d.app_version);
    assert(out@ =~= before + encode_details(*d));
}

fn write_description(out: &mut Vec<u8>, desc: &HardwareDescription)
    ensures
        final(out)@ == old(out)@ + encode_hw_description(*desc),
{
    let ghost before = out@;
    write_details(out, &desc.details);
    let pins = desc.pins.pins();
    write_varint(out, pins.len() as u64);
    let ghost mid = out@;
    let mut i: usize = 0;
    while i < pins.len()
        invariant
            i <= pins@.len(),
            pins@ == desc.pins@,
            out@ == mid + encode_pins(pins@.take(i as int)),
        decreases pins@.len() - i,
    {
        write_pin(out, &pins[i]);
        proof {
            assert(pins@.take(i + 1).drop_last() =~= pins@.take(i as int));
        }
        i = i + 1;
    }
    assert(pins@.take(i as int) =~= pins@);
    assert(out@ =~= before + encode_hw_description(*desc));
}

/// The description of a board: its details, then its pins.
pub open spec fn encode_hw_description(d: HardwareDescription) -> Seq<u8> {
    encode_details(d.details) + varint(d.pins@.len()) + encode_pins(d.pins@)
}

/// The bytes of a board's details, the answer to a get-hardware-details request.
pub fn encode_hardware_details(details: &HardwareDetails) -> (r: Vec<u8>)
    ensures
        r@ == encode_details(*details),
{
    let mut out: Vec<u8> = Vec::new();
    write_details(&mut out, details);
    assert(out@ =~= encode_details(*details));
    out
}

/// The bytes of a board's description, the answer to a get-hardware-description request.
pub fn encode_hardware_description(desc: &HardwareDescription) -> (r: Vec<u8>)
    ensures
        r@ == encode_hw_description(*desc),
{
    let mut out: Vec<u8> = Vec::new();
    write_description(&mut out, desc);
    assert(out@ =~= encode_hw_description(*desc));
    out
}

/// The bytes a device sends first on a new connection: its description, then its current
/// configuration.
pub fn encode_description(desc: &HardwareDescription, config: &GPIOConfig) -> (r: Vec<u8>)
    ensures
        r@ == encode_handshake(*desc, config.entries()),
{
    let mut out: Vec<u8> = Vec::new();
    write_description(&mut out, desc);
    write_varint(&mut out, config.configured_pins.len() as u64);
    write_entries(&mut out, &config.configured_pins);
    assert(out@ =~= encode_handshake(*desc, config.entries()));
    out
}

/// The record stored for a pin: its function's bytes.
pub fn encode_pin_function(f: PinFunction) -> (r: Vec<u8>)
    ensures
        r@ == encode_function(f),
{
    let mut out: Vec<u8> = Vec::new();
    write_function(&mut out, f);
    assert(out@ =~= encode_function(f));
    out
}

/// Read back the record stored for a pin: `None` unless the bytes are exactly one function.
pub fn decode_pin_function(b: &[u8]) -> (r: Option<PinFunction>)
    ensures
        match r {
            Some(f) => encode_function(f) == b@,
            None => forall|f: PinFunction| encode_function(f) != b@,
        },
{
    match read_function(b, 0) {
        Some((f, p)) => {
            if p == b.len() {
                proof {
                    assert(b@.subrange(0, p as int) =~= b@);
                }
                Some(f)
            } else {
                proof {
                    assert forall|g: PinFunction| encode_function(g) != b@ by {
                        if encode_function(g) == b@ {
                            assert(b@.subrange(0, b@.len() as int) =~= b@);
                            assert(at(b@, 0, encode_function(g)));
                            lemma_function_prefix_free(b@, 0, f, g);
                        }
                    }
                }
                None
            }
        },
        None => {
            proof {
                assert forall|g: PinFunction| encode_function(g) != b@ by {
                    if encode_function(g) == b@ {
                        assert(b@.subrange(0, b@.len() as int) =~= b@);
                        assert(at(b@, 0, encode_function(g)));
                    }
                }
            }
            None
        },
    }
}


/// Read a configuration on its own filling `b` exactly, as a get-config answer; `None` when
/// `b` is not such a configuration.
pub fn decode_config(b: &[u8]) -> (r: Option<GPIOConfig>)
    ensures
        match r {
            Some(c) => c.wf() && encode_config(c.entries()) == b@,
            None => forall|s: Seq<(BCMPinNumber, PinFunction)>| sorted_keys(s) ==> #[trigger] encode_config(s) != b@,
        },
{
    proof {
        assert(b@.subrange(0, b@.len() as int) =~= b@);
        assert forall|s: Seq<(BCMPinNumber, PinFunction)>| sorted_keys(s) && #[trigger] encode_config(s) == b@ implies {
            &&& at(b@, 0, varint(s.len()))
            &&& at(b@, varint(s.len()).len() as int, encode_entries(s))
            &&& s.len() <= 256
        } by {
            lemma_at_split(b@, 0, varint(s.len()), encode_entries(s));
            lemma_sorted_len(s);
        }
    }
    let (count, p) = match read_varint(b, 0, 256) {
        Some(x) => x,
        None => return None,
    };
    let (v, p2) = match read_entries(b, p, count as usize) {
        Some(x) => x,
        None => {
            proof {
                assert forall|s: Seq<(BCMPinNumber, PinFunction)>| sorted_keys(s) implies #[trigger] encode_config(s) != b@ by {
                    if encode_config(s) == b@ {
                        lemma_varint_prefix_free(b@, 0, s.len(), count as nat);
                        assert(entries_at(b@, p as int, count as nat, s));
                    }
                }
            }
            return None;
        },
    };
    if p2 != b.len() {
        proof {
            assert forall|s: Seq<(BCMPinNumber, PinFunction)>| sorted_keys(s) implies #[trigger] encode_config(s) != b@ by {
                if encode_config(s) == b@ {
                    lemma_varint_prefix_free(b@, 0, s.len(), count as nat);
                    lemma_entries_prefix_free(b@, p as int, s, v@);
                }
            }
        }
        return None;
    }
    let c = GPIOConfig { configured_pins: v };
    proof {
        lemma_at_split(b@, 0, varint(count as nat), encode_entries(c.entries()));
    }
    Some(c)
}

} // verus!
