//! Reading the first bytes a device sends on a new connection: its description, then its
//! configuration.

use vstd::prelude::*;
use vstd::utf8::{decode_utf8, encode_utf8, valid_utf8};
use crate::codec::{
    at, details_head, details_tail, encode_details, encode_function, encode_hw_description, encode_functions, encode_handshake, encode_option_u8,
    encode_pin, encode_pins, encode_str, encode_bool, encode_entries, entries_at, lemma_at_first,
    lemma_at_one, lemma_at_prefix, lemma_at_split, lemma_bool_prefix_free, lemma_entries_prefix_free,
    lemma_function_prefix_free, lemma_sorted_len, lemma_varint_prefix_free, read_bool, read_entries,
    read_function, read_varint, varint,
};
use crate::config::{sorted_keys, GPIOConfig};
use crate::pins::{BCMPinNumber, HardwareDescription, HardwareDetails, PinDescription, PinDescriptionSet, PinFunction};

verus! {

broadcast use {vstd::utf8::encode_utf8_valid_utf8, vstd::utf8::decode_utf8_encode_utf8};

/// Relies on String::from_utf8: it succeeds exactly on valid UTF-8, and the string holds the
/// characters the bytes encode.
#[verifier::external_body]
fn string_from_utf8(bytes: Vec<u8>) -> (r: Option<String>)
    ensures
        match r {
            Some(s) => valid_utf8(bytes@) && s@ == decode_utf8(bytes@),
            None => !valid_utf8(bytes@),
        },
{
    String::from_utf8(bytes).ok()
}

pub(crate) proof fn lemma_str_prefix_free(b: Seq<u8>, pos: int, s: Seq<char>, t: Seq<char>)
    requires
        at(b, pos, encode_str(s)),
        at(b, pos, encode_str(t)),
    ensures
        encode_str(s) == encode_str(t),
{
    lemma_at_split(b, pos, varint(encode_utf8(s).len()), encode_utf8(s));
    lemma_at_split(b, pos, varint(encode_utf8(t).len()), encode_utf8(t));
    lemma_varint_prefix_free(b, pos, encode_utf8(s).len(), encode_utf8(t).len());
}

pub(crate) fn read_str(b: &[u8], pos: usize) -> (r: Option<(String, usize)>)
    requires
        pos <= b@.len(),
    ensures
        match r {
            Some((s, p)) => p == pos + encode_str(s@).len() && at(b@, pos as int, encode_str(s@)),
            None => forall|cs: Seq<char>| !#[trigger] at(b@, pos as int, encode_str(cs)),
        },
{
    proof {
        assert forall|cs: Seq<char>| #[trigger] at(b@, pos as int, encode_str(cs)) implies {
            &&& at(b@, pos as int, varint(encode_utf8(cs).len()))
            &&& at(b@, pos + varint(encode_utf8(cs).len()).len(), encode_utf8(cs))
        } by {
            lemma_at_split(b@, pos as int, varint(encode_utf8(cs).len()), encode_utf8(cs));
        }
    }
    let blen = b.len();
    let (n, p1) = match read_varint(b, pos, usize::MAX as u64) {
        Some(x) => x,
        None => {
            proof {
                assert forall|cs: Seq<char>| !#[trigger] at(b@, pos as int, encode_str(cs)) by {
                    if at(b@, pos as int, encode_str(cs)) {
                        assert(encode_utf8(cs).len() <= blen);
                        assert(encode_utf8(cs).len() <= usize::MAX as u64);
                        assert(at(b@, pos as int, varint(encode_utf8(cs).len())));
                    }
                }
            }
            return None;
        },
    };
    if n > (b.len() - p1) as u64 {
        proof {
            assert forall|cs: Seq<char>| !#[trigger] at(b@, pos as int, encode_str(cs)) by {
                if at(b@, pos as int, encode_str(cs)) {
                    lemma_varint_prefix_free(b@, pos as int, n as nat, encode_utf8(cs).len());
                }
            }
        }
        return None;
    }
    let end = p1 + n as usize;
    let mut bytes: Vec<u8> = Vec::new();
    let mut i = p1;
    while i < end
        invariant
            p1 <= i <= end,
            end <= b@.len(),
            bytes@ == b@.subrange(p1 as int, i as int),
        decreases end - i,
    {
        bytes.push(b[i]);
        assert(bytes@ =~= b@.subrange(p1 as int, i + 1));
        i = i + 1;
    }
    let ghost raw = bytes@;
    match string_from_utf8(bytes) {
        Some(s) => {
            proof {
                assert(encode_utf8(s@) == raw);
                lemma_at_split(b@, pos as int, varint(n as nat), raw);
            }
            Some((s, end))
        },
        None => {
            proof {
                assert forall|cs: Seq<char>| !#[trigger] at(b@, pos as int, encode_str(cs)) by {
                    if at(b@, pos as int, encode_str(cs)) {
                        lemma_varint_prefix_free(b@, pos as int, n as nat, encode_utf8(cs).len());
                        assert(raw == encode_utf8(cs));
                    }
                }
            }
            None
        },
    }
}

fn read_option_u8(b: &[u8], pos: usize) -> (r: Option<(Option<u8>, usize)>)
    requires
        pos <= b@.len(),
    ensures
        match r {
            Some((v, p)) => p == pos + encode_option_u8(v).len() && at(b@, pos as int, encode_option_u8(v)),
            None => forall|v: Option<u8>| !#[trigger] at(b@, pos as int, encode_option_u8(v)),
        },
{
    if pos < b.len() && b[pos] == 0 {
        proof {
            lemma_at_one(b@, pos as int);
        }
        return Some((None, pos + 1));
    }
    if b.len() > 1 && pos < b.len() - 1 && b[pos] == 1 {
        proof {
            assert(b@.subrange(pos as int, pos + 2) =~= seq![1u8, b@[pos + 1]]);
        }
        return Some((Some(b[pos + 1]), pos + 2));
    }
    proof {
        assert forall|v: Option<u8>| !#[trigger] at(b@, pos as int, encode_option_u8(v)) by {
            if at(b@, pos as int, encode_option_u8(v)) {
                lemma_at_first(b@, pos as int, encode_option_u8(v));
            }
        }
    }
    None
}

proof fn lemma_option_u8_prefix_free(b: Seq<u8>, pos: int, v: Option<u8>, w: Option<u8>)
    requires
        at(b, pos, encode_option_u8(v)),
        at(b, pos, encode_option_u8(w)),
    ensures
        v == w,
{
    lemma_at_first(b, pos, encode_option_u8(v));
    lemma_at_first(b, pos, encode_option_u8(w));
    if v is Some && w is Some {
        assert(b.subrange(pos, pos + 2)[1] == b[pos + 1]);
        assert(encode_option_u8(v)[1] == b[pos + 1]);
        assert(encode_option_u8(w)[1] == b[pos + 1]);
    }
}

proof fn lemma_functions_prefix_free(b: Seq<u8>, pos: int, s: Seq<PinFunction>, t: Seq<PinFunction>)
    requires
        s.len() == t.len(),
        at(b, pos, encode_functions(s)),
        at(b, pos, encode_functions(t)),
    ensures
        s == t,
    decreases s.len(),
{
    if s.len() > 0 {
        lemma_at_split(b, pos, encode_functions(s.drop_last()), encode_function(s.last()));
        lemma_at_split(b, pos, encode_functions(t.drop_last()), encode_function(t.last()));
        lemma_functions_prefix_free(b, pos, s.drop_last(), t.drop_last());
        lemma_function_prefix_free(b, pos + encode_functions(s.drop_last()).len(), s.last(), t.last());
        assert(s =~= s.drop_last().push(s.last()));
        assert(t =~= t.drop_last().push(t.last()));
    } else {
        assert(s =~= t);
    }
}

proof fn lemma_functions_prefix(s: Seq<PinFunction>, i: int)
    requires
        0 <= i <= s.len(),
    ensures
        encode_functions(s.take(i)).len() <= encode_functions(s).len(),
        encode_functions(s).subrange(0, encode_functions(s.take(i)).len() as int) == encode_functions(s.take(i)),
    decreases s.len() - i,
{
    let whole = encode_functions(s);
    if i == s.len() {
        assert(s.take(i) =~= s);
        assert(whole.subrange(0, whole.len() as int) =~= whole);
    } else {
        lemma_functions_prefix(s, i + 1);
        assert(s.take(i + 1).drop_last() =~= s.take(i));
        let a = encode_functions(s.take(i));
        let a1 = encode_functions(s.take(i + 1));
        assert(whole.subrange(0, a.len() as int) =~= a1.subrange(0, a.len() as int));
        assert(a1.subrange(0, a.len() as int) =~= a);
    }
}

fn read_functions(b: &[u8], pos: usize, count: usize) -> (r: Option<(Vec<PinFunction>, usize)>)
    requires
        pos <= b@.len(),
    ensures
        match r {
            Some((v, p)) => v@.len() == count && p == pos + encode_functions(v@).len() && at(
                b@,
                pos as int,
                encode_functions(v@),
            ),
            None => forall|s: Seq<PinFunction>|
                s.len() == count ==> !#[trigger] at(b@, pos as int, encode_functions(s)),
        },
{
    let mut v: Vec<PinFunction> = Vec::new();
    let mut cur = pos;
    let mut i: usize = 0;
    assert(at(b@, pos as int, encode_functions(v@))) by {
        assert(b@.subrange(pos as int, pos as int) =~= Seq::<u8>::empty());
    }
    while i < count
        invariant
            i <= count,
            v@.len() == i,
            pos <= cur <= b@.len(),
            cur == pos + encode_functions(v@).len(),
            at(b@, pos as int, encode_functions(v@)),
            forall|s: Seq<PinFunction>|
                s.len() == count && #[trigger] at(b@, pos as int, encode_functions(s)) ==> s.take(i as int) == v@,
        decreases count - i,
    {
        match read_function(b, cur) {
            Some((f, p)) => {
                let ghost old_v = v@;
                v.push(f);
                proof {
                    assert(v@.drop_last() =~= old_v);
                    lemma_at_split(b@, pos as int, encode_functions(old_v), encode_function(f));
                    assert forall|s: Seq<PinFunction>|
                        s.len() == count && #[trigger] at(b@, pos as int, encode_functions(s)) implies s.take(i + 1) == v@ by {
                        lemma_functions_prefix(s, i + 1);
                        lemma_at_prefix(b@, pos as int, encode_functions(s), encode_functions(s.take(i + 1)).len() as int);
                        assert(s.take(i + 1).drop_last() =~= s.take(i as int));
                        lemma_at_split(b@, pos as int, encode_functions(old_v), encode_function(s[i as int]));
                        lemma_function_prefix_free(b@, cur as int, s[i as int], f);
                        assert(s.take(i + 1) =~= old_v.push(s[i as int]));
                    }
                }
                cur = p;
                i = i + 1;
            },
            None => {
                proof {
                    assert forall|s: Seq<PinFunction>|
                        s.len() == count implies !#[trigger] at(b@, pos as int, encode_functions(s)) by {
                        if at(b@, pos as int, encode_functions(s)) {
                            lemma_functions_prefix(s, i + 1);
                            lemma_at_prefix(b@, pos as int, encode_functions(s), encode_functions(s.take(i + 1)).len() as int);
                            assert(s.take(i + 1).drop_last() =~= s.take(i as int));
                            lemma_at_split(b@, pos as int, encode_functions(v@), encode_function(s[i as int]));
                        }
                    }
                }
                return None;
            },
        }
    }
    Some((v, cur))
}


/// Where the parts of a pin's encoding lie when the pin is encoded at `pos`.
proof fn lemma_pin_parts(b: Seq<u8>, pos: int, p: PinDescription)
    requires
        at(b, pos, encode_pin(p)),
    ensures
        pos < b.len() && b[pos] == p.board_pin_number,
        at(b, pos + 1, encode_option_u8(p.bcm_pin_number)),
        at(b, pos + 1 + encode_option_u8(p.bcm_pin_number).len(), encode_str(p.name@)),
        at(
            b,
            pos + 1 + encode_option_u8(p.bcm_pin_number).len() + encode_str(p.name@).len(),
            varint(p.options@.len()),
        ),
        at(
            b,
            pos + 1 + encode_option_u8(p.bcm_pin_number).len() + encode_str(p.name@).len() + varint(
                p.options@.len(),
            ).len(),
            encode_functions(p.options@),
        ),
{
    let a = seq![p.board_pin_number];
    let o = encode_option_u8(p.bcm_pin_number);
    let n = encode_str(p.name@);
    let c = varint(p.options@.len());
    let f = encode_functions(p.options@);
    lemma_at_split(b, pos, a + o + n + c, f);
    lemma_at_split(b, pos, a + o + n, c);
    lemma_at_split(b, pos, a + o, n);
    lemma_at_split(b, pos, a, o);
    lemma_at_first(b, pos, a);
}

proof fn lemma_pin_join(b: Seq<u8>, pos: int, p: PinDescription)
    requires
        0 <= pos < b.len() && b[pos] == p.board_pin_number,
        at(b, pos + 1, encode_option_u8(p.bcm_pin_number)),
        at(b, pos + 1 + encode_option_u8(p.bcm_pin_number).len(), encode_str(p.name@)),
        at(
            b,
            pos + 1 + encode_option_u8(p.bcm_pin_number).len() + encode_str(p.name@).len(),
            varint(p.options@.len()),
        ),
        at(
            b,
            pos + 1 + encode_option_u8(p.bcm_pin_number).len() + encode_str(p.name@).len() + varint(
                p.options@.len(),
            ).len(),
            encode_functions(p.options@),
        ),
    ensures
        at(b, pos, encode_pin(p)),
{
    let a = seq![p.board_pin_number];
    let o = encode_option_u8(p.bcm_pin_number);
    let n = encode_str(p.name@);
    let c = varint(p.options@.len());
    let f = encode_functions(p.options@);
    lemma_at_one(b, pos);
    lemma_at_split(b, pos, a, o);
    lemma_at_split(b, pos, a + o, n);
    lemma_at_split(b, pos, a + o + n, c);
    lemma_at_split(b, pos, a + o + n + c, f);
}

/// Two pins encoded at the same place have the same encoding.
proof fn lemma_pin_prefix_free(b: Seq<u8>, pos: int, p: PinDescription, q: PinDescription)
    requires
        at(b, pos, encode_pin(p)),
        at(b, pos, encode_pin(q)),
    ensures
        encode_pin(p) == encode_pin(q),
{
    lemma_pin_parts(b, pos, p);
    lemma_pin_parts(b, pos, q);
    lemma_option_u8_prefix_free(b, pos + 1, p.bcm_pin_number, q.bcm_pin_number);
    let k = pos + 1 + encode_option_u8(p.bcm_pin_number).len();
    lemma_str_prefix_free(b, k, p.name@, q.name@);
    let k2 = k + encode_str(p.name@).len();
    lemma_varint_prefix_free(b, k2, p.options@.len(), q.options@.len());
    let k3 = k2 + varint(p.options@.len()).len();
    lemma_functions_prefix_free(b, k3, p.options@, q.options@);
}

fn read_pin(b: &[u8], pos: usize) -> (r: Option<(PinDescription, usize)>)
    requires
        pos <= b@.len(),
    ensures
        match r {
            Some((q, p)) => p == pos + encode_pin(q).len() && at(b@, pos as int, encode_pin(q)),
            None => forall|q: PinDescription| !#[trigger] at(b@, pos as int, encode_pin(q)),
        },
{
    proof {
        assert forall|q: PinDescription| #[trigger] at(b@, pos as int, encode_pin(q)) implies pos < b@.len() by {
            lemma_pin_parts(b@, pos as int, q);
        }
    }
    if pos >= b.len() {
        return None;
    }
    let board = b[pos];
    let blen = b.len();
    let (bcm, p1) = match read_option_u8(b, pos + 1) {
        Some(x) => x,
        None => {
            proof {
                assert forall|q: PinDescription| !#[trigger] at(b@, pos as int, encode_pin(q)) by {
                    if at(b@, pos as int, encode_pin(q)) {
                        lemma_pin_parts(b@, pos as int, q);
                    }
                }
            }
            return None;
        },
    };
    let (name, p2) = match read_str(b, p1) {
        Some(x) => x,
        None => {
            proof {
                assert forall|q: PinDescription| !#[trigger] at(b@, pos as int, encode_pin(q)) by {
                    if at(b@, pos as int, encode_pin(q)) {
                        lemma_pin_parts(b@, pos as int, q);
                        lemma_option_u8_prefix_free(b@, pos + 1, bcm, q.bcm_pin_number);
                    }
                }
            }
            return None;
        },
    };
    let (count, p3) = match read_varint(b, p2, usize::MAX as u64) {
        Some(x) => x,
        None => {
            proof {
                assert forall|q: PinDescription| !#[trigger] at(b@, pos as int, encode_pin(q)) by {
                    if at(b@, pos as int, encode_pin(q)) {
                        lemma_pin_parts(b@, pos as int, q);
                        lemma_option_u8_prefix_free(b@, pos + 1, bcm, q.bcm_pin_number);
                        lemma_str_prefix_free(b@, p1 as int, name@, q.name@);
                        assert(q.options@.len() <= blen) by {
                            lemma_functions_len(q.options@);
                        }
                    }
                }
            }
            return None;
        },
    };
    let (options, p4) = match read_functions(b, p3, count as usize) {
        Some(x) => x,
        None => {
            proof {
                assert forall|q: PinDescription| !#[trigger] at(b@, pos as int, encode_pin(q)) by {
                    if at(b@, pos as int, encode_pin(q)) {
                        lemma_pin_parts(b@, pos as int, q);
                        lemma_option_u8_prefix_free(b@, pos + 1, bcm, q.bcm_pin_number);
                        lemma_str_prefix_free(b@, p1 as int, name@, q.name@);
                        lemma_varint_prefix_free(b@, p2 as int, count as nat, q.options@.len());
                    }
                }
            }
            return None;
        },
    };
    let q = PinDescription { board_pin_number: board, bcm_pin_number: bcm, name, options };
    proof {
        lemma_pin_join(b@, pos as int, q);
    }
    Some((q, p4))
}

proof fn lemma_functions_len(s: Seq<PinFunction>)
    ensures
        encode_functions(s).len() >= s.len(),
    decreases s.len(),
{
    if s.len() > 0 {
        lemma_functions_len(s.drop_last());
    }
}


proof fn lemma_pins_prefix(s: Seq<PinDescription>, i: int)
    requires
        0 <= i <= s.len(),
    ensures
        encode_pins(s.take(i)).len() <= encode_pins(s).len(),
        encode_pins(s).subrange(0, encode_pins(s.take(i)).len() as int) == encode_pins(s.take(i)),
    decreases s.len() - i,
{
    let whole = encode_pins(s);
    if i == s.len() {
        assert(s.take(i) =~= s);
        assert(whole.subrange(0, whole.len() as int) =~= whole);
    } else {
        lemma_pins_prefix(s, i + 1);
        assert(s.take(i + 1).drop_last() =~= s.take(i));
        let a = encode_pins(s.take(i));
        let a1 = encode_pins(s.take(i + 1));
        assert(whole.subrange(0, a.len() as int) =~= a1.subrange(0, a.len() as int));
        assert(a1.subrange(0, a.len() as int) =~= a);
    }
}

fn read_pins(b: &[u8], pos: usize, count: usize) -> (r: Option<(Vec<PinDescription>, usize)>)
    requires
        pos <= b@.len(),
    ensures
        match r {
            Some((v, p)) => v@.len() == count && p == pos + encode_pins(v@).len() && at(
                b@,
                pos as int,
                encode_pins(v@),
            ),
            None => forall|s: Seq<PinDescription>|
                s.len() == count ==> !#[trigger] at(b@, pos as int, encode_pins(s)),
        },
{
    let mut v: Vec<PinDescription> = Vec::new();
    let mut cur = pos;
    let mut i: usize = 0;
    assert(at(b@, pos as int, encode_pins(v@))) by {
        assert(b@.subrange(pos as int, pos as int) =~= Seq::<u8>::empty());
    }
    while i < count
        invariant
            i <= count,
            v@.len() == i,
            pos <= cur <= b@.len(),
            cur == pos + encode_pins(v@).len(),
            at(b@, pos as int, encode_pins(v@)),
            forall|s: Seq<PinDescription>|
                s.len() == count && #[trigger] at(b@, pos as int, encode_pins(s)) ==> encode_pins(
                    s.take(i as int),
                ) == encode_pins(v@),
        decreases count - i,
    {
        match read_pin(b, cur) {
            Some((q, p)) => {
                let ghost old_v = v@;
                let ghost qv = q;
                v.push(q);
                proof {
                    assert(v@.drop_last() =~= old_v);
                    lemma_at_split(b@, pos as int, encode_pins(old_v), encode_pin(qv));
                    assert forall|s: Seq<PinDescription>|
                        s.len() == count && #[trigger] at(b@, pos as int, encode_pins(s)) implies encode_pins(
                            s.take(i + 1),
                        ) == encode_pins(v@) by {
                        lemma_pins_prefix(s, i + 1);
                        lemma_at_prefix(b@, pos as int, encode_pins(s), encode_pins(s.take(i + 1)).len() as int);
                        assert(s.take(i + 1).drop_last() =~= s.take(i as int));
                        assert(s.take(i + 1).last() == s[i as int]);
                        lemma_at_split(b@, pos as int, encode_pins(old_v), encode_pin(s[i as int]));
                        lemma_pin_prefix_free(b@, cur as int, s[i as int], qv);
                    }
                }
                cur = p;
                i = i + 1;
            },
            None => {
                proof {
                    assert forall|s: Seq<PinDescription>|
                        s.len() == count implies !#[trigger] at(b@, pos as int, encode_pins(s)) by {
                        if at(b@, pos as int, encode_pins(s)) {
                            lemma_pins_prefix(s, i + 1);
                            lemma_at_prefix(b@, pos as int, encode_pins(s), encode_pins(s.take(i + 1)).len() as int);
                            assert(s.take(i + 1).drop_last() =~= s.take(i as int));
                            assert(s.take(i + 1).last() == s[i as int]);
                            lemma_at_split(b@, pos as int, encode_pins(v@), encode_pin(s[i as int]));
                        }
                    }
                }
                return None;
            },
        }
    }
    Some((v, cur))
}

proof fn lemma_pins_len(s: Seq<PinDescription>)
    ensures
        encode_pins(s).len() >= s.len(),
    decreases s.len(),
{
    if s.len() > 0 {
        lemma_pins_len(s.drop_last());
    }
}

/// The offset of the `k`th string of a details head from the head's start.
pub open spec fn head_offset(hardware: Seq<char>, revision: Seq<char>, serial: Seq<char>, model: Seq<char>, k: int) -> nat {
    if k == 0 {
        0
    } else if k == 1 {
        encode_str(hardware).len()
    } else if k == 2 {
        encode_str(hardware).len() + encode_str(revision).len()
    } else if k == 3 {
        encode_str(hardware).len() + encode_str(revision).len() + encode_str(serial).len()
    } else {
        encode_str(hardware).len() + encode_str(revision).len() + encode_str(serial).len() + encode_str(model).len()
    }
}

proof fn lemma_head_parts(b: Seq<u8>, pos: int, hardware: Seq<char>, revision: Seq<char>, serial: Seq<char>, model: Seq<char>)
    requires
        at(b, pos, details_head(hardware, revision, serial, model)),
    ensures
        at(b, pos + head_offset(hardware, revision, serial, model, 0), encode_str(hardware)),
        at(b, pos + head_offset(hardware, revision, serial, model, 1), encode_str(revision)),
        at(b, pos + head_offset(hardware, revision, serial, model, 2), encode_str(serial)),
        at(b, pos + head_offset(hardware, revision, serial, model, 3), encode_str(model)),
{
    lemma_at_split(b, pos, encode_str(hardware) + encode_str(revision) + encode_str(serial), encode_str(model));
    lemma_at_split(b, pos, encode_str(hardware) + encode_str(revision), encode_str(serial));
    lemma_at_split(b, pos, encode_str(hardware), encode_str(revision));
}

proof fn lemma_head_join(b: Seq<u8>, pos: int, hardware: Seq<char>, revision: Seq<char>, serial: Seq<char>, model: Seq<char>)
    requires
        0 <= pos,
        at(b, pos + head_offset(hardware, revision, serial, model, 0), encode_str(hardware)),
        at(b, pos + head_offset(hardware, revision, serial, model, 1), encode_str(revision)),
        at(b, pos + head_offset(hardware, revision, serial, model, 2), encode_str(serial)),
        at(b, pos + head_offset(hardware, revision, serial, model, 3), encode_str(model)),
    ensures
        at(b, pos, details_head(hardware, revision, serial, model)),
{
    lemma_at_split(b, pos, encode_str(hardware), encode_str(revision));
    lemma_at_split(b, pos, encode_str(hardware) + encode_str(revision), encode_str(serial));
    lemma_at_split(b, pos, encode_str(hardware) + encode_str(revision) + encode_str(serial), encode_str(model));
}

proof fn lemma_head_prefix_free(b: Seq<u8>, pos: int, hardware: Seq<char>, revision: Seq<char>, serial: Seq<char>, model: Seq<char>, hardware_b: Seq<char>, revision_b: Seq<char>, serial_b: Seq<char>, model_b: Seq<char>)
    requires
        at(b, pos, details_head(hardware, revision, serial, model)),
        at(b, pos, details_head(hardware_b, revision_b, serial_b, model_b)),
    ensures
        details_head(hardware, revision, serial, model) == details_head(hardware_b, revision_b, serial_b, model_b),
{
    lemma_head_parts(b, pos, hardware, revision, serial, model);
    lemma_head_parts(b, pos, hardware_b, revision_b, serial_b, model_b);
    lemma_str_prefix_free(b, pos + head_offset(hardware, revision, serial, model, 0), hardware, hardware_b);
    lemma_str_prefix_free(b, pos + head_offset(hardware, revision, serial, model, 1), revision, revision_b);
    lemma_str_prefix_free(b, pos + head_offset(hardware, revision, serial, model, 2), serial, serial_b);
    lemma_str_prefix_free(b, pos + head_offset(hardware, revision, serial, model, 3), model, model_b);
}

/// Read the hardware, revision, serial and model strings of a description at `pos`.
fn read_head(b: &[u8], pos: usize) -> (r: Option<(String, String, String, String, usize)>)
    requires
        pos <= b@.len(),
    ensures
        match r {
            Some((hardware, revision, serial, model, p)) => p == pos + details_head(hardware@, revision@, serial@, model@).len() && at(b@, pos as int, details_head(hardware@, revision@, serial@, model@)),
            None => forall|hardware_c: Seq<char>, revision_c: Seq<char>, serial_c: Seq<char>, model_c: Seq<char>| !#[trigger] at(b@, pos as int, details_head(hardware_c, revision_c, serial_c, model_c)),
        },
{
    let p0 = pos;
    let (hardware, p1) = match read_str(b, p0) {
        Some(x) => x,
        None => {
            proof {
                assert forall|hardware_c: Seq<char>, revision_c: Seq<char>, serial_c: Seq<char>, model_c: Seq<char>| !#[trigger] at(b@, pos as int, details_head(hardware_c, revision_c, serial_c, model_c)) by {
                    if at(b@, pos as int, details_head(hardware_c, revision_c, serial_c, model_c)) {
                        lemma_head_parts(b@, pos as int, hardware_c, revision_c, serial_c, model_c);
                        
                    }
                }
            }
            return None;
        },
    };
    let (revision, p2) = match read_str(b, p1) {
        Some(x) => x,
        None => {
            proof {
                assert forall|hardware_c: Seq<char>, revision_c: Seq<char>, serial_c: Seq<char>, model_c: Seq<char>| !#[trigger] at(b@, pos as int, details_head(hardware_c, revision_c, serial_c, model_c)) by {
                    if at(b@, pos as int, details_head(hardware_c, revision_c, serial_c, model_c)) {
                        lemma_head_parts(b@, pos as int, hardware_c, revision_c, serial_c, model_c);
                        lemma_str_prefix_free(b@, pos + head_offset(hardware_c, revision_c, serial_c, model_c, 0), hardware@, hardware_c);
                    }
                }
            }
            return None;
        },
    };
    let (serial, p3) = match read_str(b, p2) {
        Some(x) => x,
        None => {
            proof {
                assert forall|hardware_c: Seq<char>, revision_c: Seq<char>, serial_c: Seq<char>, model_c: Seq<char>| !#[trigger] at(b@, pos as int, details_head(hardware_c, revision_c, serial_c, model_c)) by {
                    if at(b@, pos as int, details_head(hardware_c, revision_c, serial_c, model_c)) {
                        lemma_head_parts(b@, pos as int, hardware_c, revision_c, serial_c, model_c);
                        lemma_str_prefix_free(b@, pos + head_offset(hardware_c, revision_c, serial_c, model_c, 0), hardware@, hardware_c);
                        lemma_str_prefix_free(b@, pos + head_offset(hardware_c, revision_c, serial_c, model_c, 1), revision@, revision_c);
                    }
                }
            }
            return None;
        },
    };
    let (model, p4) = match read_str(b, p3) {
        Some(x) => x,
        None => {
            proof {
                assert forall|hardware_c: Seq<char>, revision_c: Seq<char>, serial_c: Seq<char>, model_c: Seq<char>| !#[trigger] at(b@, pos as int, details_head(hardware_c, revision_c, serial_c, model_c)) by {
                    if at(b@, pos as int, details_head(hardware_c, revision_c, serial_c, model_c)) {
                        lemma_head_parts(b@, pos as int, hardware_c, revision_c, serial_c, model_c);
                        lemma_str_prefix_free(b@, pos + head_offset(hardware_c, revision_c, serial_c, model_c, 0), hardware@, hardware_c);
                        lemma_str_prefix_free(b@, pos + head_offset(hardware_c, revision_c, serial_c, model_c, 1), revision@, revision_c);
                        lemma_str_prefix_free(b@, pos + head_offset(hardware_c, revision_c, serial_c, model_c, 2), serial@, serial_c);
                    }
                }
            }
            return None;
        },
    };
    proof {
        lemma_head_join(b@, pos as int, hardware@, revision@, serial@, model@);
    }
    Some((hardware, revision, serial, model, p4))
}

/// The offset of the `k`th part of a details tail from the tail's start.
pub open spec fn tail_offset(wifi: bool, app_name: Seq<char>, app_version: Seq<char>, k: int) -> nat {
    if k == 0 {
        0
    } else if k == 1 {
        encode_bool(wifi).len()
    } else if k == 2 {
        encode_bool(wifi).len() + encode_str(app_name).len()
    } else {
        encode_bool(wifi).len() + encode_str(app_name).len() + encode_str(app_version).len()
    }
}

proof fn lemma_tail_parts(b: Seq<u8>, pos: int, wifi: bool, app_name: Seq<char>, app_version: Seq<char>)
    requires
        at(b, pos, details_tail(wifi, app_name, app_version)),
    ensures
        at(b, pos + tail_offset(wifi, app_name, app_version, 0), encode_bool(wifi)),
        at(b, pos + tail_offset(wifi, app_name, app_version, 1), encode_str(app_name)),
        at(b, pos + tail_offset(wifi, app_name, app_version, 2), encode_str(app_version)),
{
    lemma_at_split(b, pos, encode_bool(wifi) + encode_str(app_name), encode_str(app_version));
    lemma_at_split(b, pos, encode_bool(wifi), encode_str(app_name));
}

proof fn lemma_tail_join(b: Seq<u8>, pos: int, wifi: bool, app_name: Seq<char>, app_version: Seq<char>)
    requires
        0 <= pos,
        at(b, pos + tail_offset(wifi, app_name, app_version, 0), encode_bool(wifi)),
        at(b, pos + tail_offset(wifi, app_name, app_version, 1), encode_str(app_name)),
        at(b, pos + tail_offset(wifi, app_name, app_version, 2), encode_str(app_version)),
    ensures
        at(b, pos, details_tail(wifi, app_name, app_version)),
{
    lemma_at_split(b, pos, encode_bool(wifi), encode_str(app_name));
    lemma_at_split(b, pos, encode_bool(wifi) + encode_str(app_name), encode_str(app_version));
}

proof fn lemma_tail_prefix_free(b: Seq<u8>, pos: int, wifi: bool, app_name: Seq<char>, app_version: Seq<char>, wifi_b: bool, app_name_b: Seq<char>, app_version_b: Seq<char>)
    requires
        at(b, pos, details_tail(wifi, app_name, app_version)),
        at(b, pos, details_tail(wifi_b, app_name_b, app_version_b)),
    ensures
        details_tail(wifi, app_name, app_version) == details_tail(wifi_b, app_name_b, app_version_b),
{
    lemma_tail_parts(b, pos, wifi, app_name, app_version);
    lemma_tail_parts(b, pos, wifi_b, app_name_b, app_version_b);
    lemma_bool_prefix_free(b, pos + tail_offset(wifi, app_name, app_version, 0), wifi, wifi_b);
    lemma_str_prefix_free(b, pos + tail_offset(wifi, app_name, app_version, 1), app_name, app_name_b);
    lemma_str_prefix_free(b, pos + tail_offset(wifi, app_name, app_version, 2), app_version, app_version_b);
}

/// Read the Wi-Fi flag and the application's name and version at `pos`.
fn read_tail(b: &[u8], pos: usize) -> (r: Option<(bool, String, String, usize)>)
    requires
        pos <= b@.len(),
    ensures
        match r {
            Some((wifi, app_name, app_version, p)) => p == pos + details_tail(wifi, app_name@, app_version@).len() && at(b@, pos as int, details_tail(wifi, app_name@, app_version@)),
            None => forall|wifi_c: bool, app_name_c: Seq<char>, app_version_c: Seq<char>| !#[trigger] at(b@, pos as int, details_tail(wifi_c, app_name_c, app_version_c)),
        },
{
    let p0 = pos;
    let (wifi, p1) = match read_bool(b, p0) {
        Some(x) => x,
        None => {
            proof {
                assert forall|wifi_c: bool, app_name_c: Seq<char>, app_version_c: Seq<char>| !#[trigger] at(b@, pos as int, details_tail(wifi_c, app_name_c, app_version_c)) by {
                    if at(b@, pos as int, details_tail(wifi_c, app_name_c, app_version_c)) {
                        lemma_tail_parts(b@, pos as int, wifi_c, app_name_c, app_version_c);
                        
                    }
                }
            }
            return None;
        },
    };
    let (app_name, p2) = match read_str(b, p1) {
        Some(x) => x,
        None => {
            proof {
                assert forall|wifi_c: bool, app_name_c: Seq<char>, app_version_c: Seq<char>| !#[trigger] at(b@, pos as int, details_tail(wifi_c, app_name_c, app_version_c)) by {
                    if at(b@, pos as int, details_tail(wifi_c, app_name_c, app_version_c)) {
                        lemma_tail_parts(b@, pos as int, wifi_c, app_name_c, app_version_c);
                        lemma_bool_prefix_free(b@, pos + tail_offset(wifi_c, app_name_c, app_version_c, 0), wifi, wifi_c);
                    }
                }
            }
            return None;
        },
    };
    let (app_version, p3) = match read_str(b, p2) {
        Some(x) => x,
        None => {
            proof {
                assert forall|wifi_c: bool, app_name_c: Seq<char>, app_version_c: Seq<char>| !#[trigger] at(b@, pos as int, details_tail(wifi_c, app_name_c, app_version_c)) by {
                    if at(b@, pos as int, details_tail(wifi_c, app_name_c, app_version_c)) {
                        lemma_tail_parts(b@, pos as int, wifi_c, app_name_c, app_version_c);
                        lemma_bool_prefix_free(b@, pos + tail_offset(wifi_c, app_name_c, app_version_c, 0), wifi, wifi_c);
                        lemma_str_prefix_free(b@, pos + tail_offset(wifi_c, app_name_c, app_version_c, 1), app_name@, app_name_c);
                    }
                }
            }
            return None;
        },
    };
    proof {
        lemma_tail_join(b@, pos as int, wifi, app_name@, app_version@);
    }
    Some((wifi, app_name, app_version, p3))
}


proof fn lemma_pins_prefix_free(b: Seq<u8>, pos: int, s: Seq<PinDescription>, t: Seq<PinDescription>)
    requires
        s.len() == t.len(),
        at(b, pos, encode_pins(s)),
        at(b, pos, encode_pins(t)),
    ensures
        encode_pins(s) == encode_pins(t),
    decreases s.len(),
{
    if s.len() > 0 {
        lemma_at_split(b, pos, encode_pins(s.drop_last()), encode_pin(s.last()));
        lemma_at_split(b, pos, encode_pins(t.drop_last()), encode_pin(t.last()));
        lemma_pins_prefix_free(b, pos, s.drop_last(), t.drop_last());
        lemma_pin_prefix_free(b, pos + encode_pins(s.drop_last()).len(), s.last(), t.last());
    }
}

proof fn lemma_details_split(b: Seq<u8>, pos: int, d: HardwareDetails)
    ensures
        at(b, pos, encode_details(d)) <==> at(
            b,
            pos,
            details_head(d.hardware@, d.revision@, d.serial@, d.model@),
        ) && at(
            b,
            pos + details_head(d.hardware@, d.revision@, d.serial@, d.model@).len(),
            details_tail(d.wifi, d.app_name@, d.app_version@),
        ),
{
    lemma_at_split(
        b,
        pos,
        details_head(d.hardware@, d.revision@, d.serial@, d.model@),
        details_tail(d.wifi, d.app_name@, d.app_version@),
    );
}

proof fn lemma_details_prefix_free(b: Seq<u8>, pos: int, d: HardwareDetails, e: HardwareDetails)
    requires
        at(b, pos, encode_details(d)),
        at(b, pos, encode_details(e)),
    ensures
        encode_details(d) == encode_details(e),
{
    lemma_details_split(b, pos, d);
    lemma_details_split(b, pos, e);
    lemma_head_prefix_free(b, pos, d.hardware@, d.revision@, d.serial@, d.model@, e.hardware@, e.revision@, e.serial@, e.model@);
    let k = pos + details_head(d.hardware@, d.revision@, d.serial@, d.model@).len();
    lemma_tail_prefix_free(b, k, d.wifi, d.app_name@, d.app_version@, e.wifi, e.app_name@, e.app_version@);
}

fn read_details(b: &[u8], pos: usize) -> (r: Option<(HardwareDetails, usize)>)
    requires
        pos <= b@.len(),
    ensures
        match r {
            Some((d, p)) => p == pos + encode_details(d).len() && at(b@, pos as int, encode_details(d)),
            None => forall|d: HardwareDetails| !#[trigger] at(b@, pos as int, encode_details(d)),
        },
{
    let (hardware, revision, serial, model, p1) = match read_head(b, pos) {
        Some(x) => x,
        None => {
            proof {
                assert forall|d: HardwareDetails| !#[trigger] at(b@, pos as int, encode_details(d)) by {
                    lemma_details_split(b@, pos as int, d);
                }
            }
            return None;
        },
    };
    let (wifi, app_name, app_version, p2) = match read_tail(b, p1) {
        Some(x) => x,
        None => {
            proof {
                assert forall|d: HardwareDetails| !#[trigger] at(b@, pos as int, encode_details(d)) by {
                    lemma_details_split(b@, pos as int, d);
                    if at(b@, pos as int, encode_details(d)) {
                        lemma_head_prefix_free(b@, pos as int, hardware@, revision@, serial@, model@, d.hardware@, d.revision@, d.serial@, d.model@);
                    }
                }
            }
            return None;
        },
    };
    let d = HardwareDetails { hardware, revision, serial, model, wifi, app_name, app_version };
    proof {
        lemma_details_split(b@, pos as int, d);
    }
    Some((d, p2))
}

proof fn lemma_handshake_parts(b: Seq<u8>, d: HardwareDescription, s: Seq<(BCMPinNumber, PinFunction)>)
    requires
        encode_handshake(d, s) == b,
    ensures
        ({
            let e0 = encode_details(d.details);
            let e1 = varint(d.pins@.len());
            let e2 = encode_pins(d.pins@);
            let e3 = varint(s.len());
            let e4 = encode_entries(s);
            &&& at(b, 0, e0)
            &&& at(b, e0.len() as int, e1)
            &&& at(b, (e0.len() + e1.len()) as int, e2)
            &&& at(b, (e0.len() + e1.len() + e2.len()) as int, e3)
            &&& at(b, (e0.len() + e1.len() + e2.len() + e3.len()) as int, e4)
            &&& b.len() == e0.len() + e1.len() + e2.len() + e3.len() + e4.len()
        }),
{
    let e0 = encode_details(d.details);
    let e1 = varint(d.pins@.len());
    let e2 = encode_pins(d.pins@);
    let e3 = varint(s.len());
    let e4 = encode_entries(s);
    assert(b.subrange(0, b.len() as int) =~= b);
    lemma_at_split(b, 0, e0 + e1 + e2 + e3, e4);
    lemma_at_split(b, 0, e0 + e1 + e2, e3);
    lemma_at_split(b, 0, e0 + e1, e2);
    lemma_at_split(b, 0, e0, e1);
}

/// No description and well-formed configuration are encoded as exactly `b`.
pub open spec fn no_handshake(b: Seq<u8>) -> bool {
    forall|d: HardwareDescription, s: Seq<(BCMPinNumber, PinFunction)>|
        sorted_keys(s) ==> #[trigger] encode_handshake(d, s) != b
}

/// Read the first bytes a device sends on a new connection: its description and its
/// configuration. `None` when the bytes are not exactly such a pair.
#[verifier::rlimit(60)]
pub fn decode_description(b: &[u8]) -> (r: Option<(HardwareDescription, GPIOConfig)>)
    ensures
        match r {
            Some((d, c)) => c.wf() && encode_handshake(d, c.entries()) == b@,
            None => no_handshake(b@),
        },
{
    let blen = b.len();
    let (details, p1) = match read_details(b, 0) {
        Some(x) => x,
        None => {
            proof {
                assert forall|d: HardwareDescription, s: Seq<(BCMPinNumber, PinFunction)>|
                    sorted_keys(s) implies #[trigger] encode_handshake(d, s) != b@ by {
                    if encode_handshake(d, s) == b@ {
                        lemma_handshake_parts(b@, d, s);
                    }
                }
            }
            return None;
        },
    };
    let (pin_count, p2) = match read_varint(b, p1, usize::MAX as u64) {
        Some(x) => x,
        None => {
            proof {
                assert forall|d: HardwareDescription, s: Seq<(BCMPinNumber, PinFunction)>|
                    sorted_keys(s) implies #[trigger] encode_handshake(d, s) != b@ by {
                    if encode_handshake(d, s) == b@ {
                        lemma_handshake_parts(b@, d, s);
                        lemma_details_prefix_free(b@, 0, details, d.details);
                        lemma_pins_len(d.pins@);
                        assert(d.pins@.len() <= blen);
                    }
                }
            }
            return None;
        },
    };
    let (pins, p3) = match read_pins(b, p2, pin_count as usize) {
        Some(x) => x,
        None => {
            proof {
                assert forall|d: HardwareDescription, s: Seq<(BCMPinNumber, PinFunction)>|
                    sorted_keys(s) implies #[trigger] encode_handshake(d, s) != b@ by {
                    if encode_handshake(d, s) == b@ {
                        lemma_handshake_parts(b@, d, s);
                        lemma_details_prefix_free(b@, 0, details, d.details);
                        lemma_varint_prefix_free(b@, p1 as int, pin_count as nat, d.pins@.len());
                    }
                }
            }
            return None;
        },
    };
    let (entry_count, p4) = match read_varint(b, p3, 256) {
        Some(x) => x,
        None => {
            proof {
                assert forall|d: HardwareDescription, s: Seq<(BCMPinNumber, PinFunction)>|
                    sorted_keys(s) implies #[trigger] encode_handshake(d, s) != b@ by {
                    if encode_handshake(d, s) == b@ {
                        lemma_handshake_parts(b@, d, s);
                        lemma_details_prefix_free(b@, 0, details, d.details);
                        lemma_varint_prefix_free(b@, p1 as int, pin_count as nat, d.pins@.len());
                        lemma_pins_prefix_free(b@, p2 as int, pins@, d.pins@);
                        lemma_sorted_len(s);
                    }
                }
            }
            return None;
        },
    };
    let (entries, p5) = match read_entries(b, p4, entry_count as usize) {
        Some(x) => x,
        None => {
            proof {
                assert forall|d: HardwareDescription, s: Seq<(BCMPinNumber, PinFunction)>|
                    sorted_keys(s) implies #[trigger] encode_handshake(d, s) != b@ by {
                    if encode_handshake(d, s) == b@ {
                        lemma_handshake_parts(b@, d, s);
                        lemma_details_prefix_free(b@, 0, details, d.details);
                        lemma_varint_prefix_free(b@, p1 as int, pin_count as nat, d.pins@.len());
                        lemma_pins_prefix_free(b@, p2 as int, pins@, d.pins@);
                        lemma_varint_prefix_free(b@, p3 as int, entry_count as nat, s.len());
                        assert(entries_at(b@, p4 as int, entry_count as nat, s));
                    }
                }
            }
            return None;
        },
    };
    if p5 != blen {
        proof {
            assert forall|d: HardwareDescription, s: Seq<(BCMPinNumber, PinFunction)>|
                sorted_keys(s) implies #[trigger] encode_handshake(d, s) != b@ by {
                if encode_handshake(d, s) == b@ {
                    lemma_handshake_parts(b@, d, s);
                    lemma_details_prefix_free(b@, 0, details, d.details);
                    lemma_varint_prefix_free(b@, p1 as int, pin_count as nat, d.pins@.len());
                    lemma_pins_prefix_free(b@, p2 as int, pins@, d.pins@);
                    lemma_varint_prefix_free(b@, p3 as int, entry_count as nat, s.len());
                    lemma_entries_prefix_free(b@, p4 as int, entries@, s);
                }
            }
        }
        return None;
    }
    let desc = HardwareDescription { details, pins: PinDescriptionSet::new(pins) };
    let config = GPIOConfig { configured_pins: entries };
    proof {
        let e0 = encode_details(desc.details);
        let e1 = varint(desc.pins@.len());
        let e2 = encode_pins(desc.pins@);
        let e3 = varint(config.entries().len());
        let e4 = encode_entries(config.entries());
        lemma_at_split(b@, 0, e0, e1);
        lemma_at_split(b@, 0, e0 + e1, e2);
        lemma_at_split(b@, 0, e0 + e1 + e2, e3);
        lemma_at_split(b@, 0, e0 + e1 + e2 + e3, e4);
        assert(b@.subrange(0, b@.len() as int) =~= b@);
    }
    Some((desc, config))
}


/// Read a board's details filling `b` exactly; `None` when `b` is not such details.
pub fn decode_hardware_details(b: &[u8]) -> (r: Option<HardwareDetails>)
    ensures
        match r {
            Some(d) => encode_details(d) == b@,
            None => forall|d: HardwareDetails| #[trigger] encode_details(d) != b@,
        },
{
    proof {
        assert(b@.subrange(0, b@.len() as int) =~= b@);
    }
    match read_details(b, 0) {
        Some((d, p)) => {
            if p == b.len() {
                Some(d)
            } else {
                proof {
                    assert forall|e: HardwareDetails| #[trigger] encode_details(e) != b@ by {
                        if encode_details(e) == b@ {
                            assert(at(b@, 0, encode_details(e)));
                            lemma_details_prefix_free(b@, 0, d, e);
                        }
                    }
                }
                None
            }
        },
        None => {
            proof {
                assert forall|e: HardwareDetails| #[trigger] encode_details(e) != b@ by {
                    if encode_details(e) == b@ {
                        assert(at(b@, 0, encode_details(e)));
                    }
                }
            }
            None
        },
    }
}

proof fn lemma_description_parts(b: Seq<u8>, d: HardwareDescription)
    requires
        encode_hw_description(d) == b,
    ensures
        ({
            let e0 = encode_details(d.details);
            let e1 = varint(d.pins@.len());
            let e2 = encode_pins(d.pins@);
            &&& at(b, 0, e0)
            &&& at(b, e0.len() as int, e1)
            &&& at(b, (e0.len() + e1.len()) as int, e2)
            &&& b.len() == e0.len() + e1.len() + e2.len()
        }),
{
    let e0 = encode_details(d.details);
    let e1 = varint(d.pins@.len());
    let e2 = encode_pins(d.pins@);
    assert(b.subrange(0, b.len() as int) =~= b);
    lemma_at_split(b, 0, e0 + e1, e2);
    lemma_at_split(b, 0, e0, e1);
}

/// Read a board's description filling `b` exactly; `None` when `b` is not such a description.
pub fn decode_hardware_description(b: &[u8]) -> (r: Option<HardwareDescription>)
    ensures
        match r {
            Some(d) => encode_hw_description(d) == b@,
            None => forall|d: HardwareDescription| #[trigger] encode_hw_description(d) != b@,
        },
{
    let blen = b.len();
    let (details, p1) = match read_details(b, 0) {
        Some(x) => x,
        None => {
            proof {
                assert forall|d: HardwareDescription| #[trigger] encode_hw_description(d) != b@ by {
                    if encode_hw_description(d) == b@ {
                        lemma_description_parts(b@, d);
                    }
                }
            }
            return None;
        },
    };
    let (pin_count, p2) = match read_varint(b, p1, usize::MAX as u64) {
        Some(x) => x,
        None => {
            proof {
                assert forall|d: HardwareDescription| #[trigger] encode_hw_description(d) != b@ by {
                    if encode_hw_description(d) == b@ {
                        lemma_description_parts(b@, d);
                        lemma_details_prefix_free(b@, 0, details, d.details);
                        lemma_pins_len(d.pins@);
                        assert(d.pins@.len() <= blen);
                    }
                }
            }
            return None;
        },
    };
    let (pins, p3) = match read_pins(b, p2, pin_count as usize) {
        Some(x) => x,
        None => {
            proof {
                assert forall|d: HardwareDescription| #[trigger] encode_hw_description(d) != b@ by {
                    if encode_hw_description(d) == b@ {
                        lemma_description_parts(b@, d);
                        lemma_details_prefix_free(b@, 0, details, d.details);
                        lemma_varint_prefix_free(b@, p1 as int, pin_count as nat, d.pins@.len());
                    }
                }
            }
            return None;
        },
    };
    if p3 != blen {
        proof {
            assert forall|d: HardwareDescription| #[trigger] encode_hw_description(d) != b@ by {
                if encode_hw_description(d) == b@ {
                    lemma_description_parts(b@, d);
                    lemma_details_prefix_free(b@, 0, details, d.details);
                    lemma_varint_prefix_free(b@, p1 as int, pin_count as nat, d.pins@.len());
                    lemma_pins_prefix_free(b@, p2 as int, pins@, d.pins@);
                }
            }
        }
        return None;
    }
    let desc = HardwareDescription { details, pins: PinDescriptionSet::new(pins) };
    proof {
        let e0 = encode_details(desc.details);
        let e1 = varint(desc.pins@.len());
        let e2 = encode_pins(desc.pins@);
        lemma_at_split(b@, 0, e0, e1);
        lemma_at_split(b@, 0, e0 + e1, e2);
        assert(b@.subrange(0, b@.len() as int) =~= b@);
    }
    Some(desc)
}

} // verus!
