//! Reading the JSON forms back: the envelope object that is signed, and the message
//! of one connection, the two-element array of the envelope and the signature.
//!
//! The reader is strict. It accepts the bytes that the writer produces and no others:
//! no white space, no other order of the keys, no leading zeros.

use vstd::prelude::*;
use crate::bytes::append_bytes;
use crate::confidential_tx::{ConfidentialTransaction, Envelope};
use crate::envelope::{
    decimal,
    json_array,
    json_bytes,
    json_field,
    json_spec,
    json_tail,
    key_commitment,
    key_commitment_bytes,
    key_proof,
    key_proof_bytes,
    key_receiver,
    key_receiver_bytes,
    key_sender,
    key_sender_bytes,
    push_json_array,
};
use crate::error::ProtocolError;
use crate::prover::{SignedEnvelope, SignedTransaction};

verus! {

/// Whether there is an ASCII digit at `pos`.
pub open spec fn digit_at(s: Seq<u8>, pos: int) -> bool {
    0 <= pos < s.len() && 0x30 <= s[pos] <= 0x39
}

/// The number from 0 to 255 that is written in decimal at `pos`, without leading zeros
/// and up to the first byte that is no digit, and the count of its digits.
pub open spec fn read_decimal(s: Seq<u8>, pos: int) -> Option<(u8, nat)> {
    if !digit_at(s, pos) {
        None
    } else if !digit_at(s, pos + 1) {
        Some(((s[pos] - 48) as u8, 1nat))
    } else if s[pos] == 0x30 {
        None
    } else if !digit_at(s, pos + 2) {
        Some(((10 * (s[pos] - 48) + (s[pos + 1] - 48)) as u8, 2nat))
    } else if digit_at(s, pos + 3) {
        None
    } else {
        let value = 100 * (s[pos] - 48) + 10 * (s[pos + 1] - 48) + (s[pos + 2] - 48);
        if value <= 255 {
            Some((value as u8, 3nat))
        } else {
            None
        }
    }
}

/// What follows the first number of an array: further numbers, each after a comma, up
/// to the closing bracket. Gives the numbers read so far, `acc`, with the further ones,
/// and the position after the bracket.
pub open spec fn read_tail(s: Seq<u8>, pos: int, acc: Seq<u8>) -> Option<(Seq<u8>, int)>
    decreases s.len() - pos,
{
    if pos < 0 || pos >= s.len() {
        None
    } else if s[pos] == 0x5d {
        Some((acc, pos + 1))
    } else if s[pos] == 0x2c {
        match read_decimal(s, pos + 1) {
            Some((b, count)) => read_tail(s, pos + 1 + count, acc.push(b)),
            None => None,
        }
    } else {
        None
    }
}

/// The array of numbers that is written at `pos`, and the position after it.
pub open spec fn read_array(s: Seq<u8>, pos: int) -> Option<(Seq<u8>, int)> {
    if pos < 0 || pos >= s.len() || s[pos] != 0x5b {
        None
    } else if pos + 1 < s.len() && s[pos + 1] == 0x5d {
        Some((Seq::empty(), pos + 2))
    } else {
        match read_decimal(s, pos + 1) {
            Some((b, count)) => read_tail(s, pos + 1 + count, seq![b]),
            None => None,
        }
    }
}

/// The position after the bytes `lit`, where they stand at `pos`.
pub open spec fn read_literal(s: Seq<u8>, pos: int, lit: Seq<u8>) -> Option<int> {
    if 0 <= pos && pos + lit.len() <= s.len() && s.subrange(pos, pos + lit.len()) == lit {
        Some(pos + lit.len())
    } else {
        None
    }
}

/// The array that follows the bytes `key` at `pos`, and the position after it.
pub open spec fn read_field(s: Seq<u8>, pos: int, key: Seq<u8>) -> Option<(Seq<u8>, int)> {
    match read_literal(s, pos, key) {
        Some(next) => read_array(s, next),
        None => None,
    }
}

/// The envelope whose JSON object is written at `pos`, and the position after it.
pub open spec fn read_envelope(s: Seq<u8>, pos: int) -> Option<(Envelope, int)> {
    match read_field(s, pos, key_sender()) {
        None => None,
        Some((sender, mark_a)) => match read_field(s, mark_a, key_receiver()) {
            None => None,
            Some((receiver, mark_b)) => match read_field(s, mark_b, key_commitment()) {
                None => None,
                Some((amount_commitment, mark_c)) => match read_field(s, mark_c, key_proof()) {
                    None => None,
                    Some((proof, mark_d)) => if 0 <= mark_d < s.len() && s[mark_d] == 0x7d {
                        Some((Envelope { sender, receiver, amount_commitment, proof }, mark_d + 1))
                    } else {
                        None
                    },
                },
            },
        },
    }
}

/// The envelope that `s` is the JSON object of.
pub open spec fn json_decode(s: Seq<u8>) -> Option<Envelope> {
    match read_envelope(s, 0) {
        Some((e, end)) => if end == s.len() {
            Some(e)
        } else {
            None
        },
        None => None,
    }
}

/// The message of one connection: the two-element JSON array of the envelope's object
/// and the signature's array, without white space.
pub open spec fn wire_spec(signed: SignedEnvelope) -> Seq<u8> {
    seq![0x5bu8] + json_spec(signed.envelope) + seq![0x2cu8] + json_array(signed.signature)
        + seq![0x5du8]
}

/// The signed envelope that `s` is the message of.
pub open spec fn wire_decode(s: Seq<u8>) -> Option<SignedEnvelope> {
    if s.len() == 0 || s[0] != 0x5b {
        None
    } else {
        match read_envelope(s, 1) {
            None => None,
            Some((envelope, mark_a)) => if 0 <= mark_a < s.len() && s[mark_a] == 0x2c {
                match read_array(s, mark_a + 1) {
                    None => None,
                    Some((signature, mark_b)) => if 0 <= mark_b < s.len() && s[mark_b] == 0x5d
                        && mark_b + 1 == s.len() {
                        Some(SignedEnvelope { envelope, signature })
                    } else {
                        None
                    },
                }
            } else {
                None
            },
        }
    }
}

fn is_digit(b: u8) -> (r: bool)
    ensures
        r == (0x30 <= b <= 0x39),
{
    0x30 <= b && b <= 0x39
}

fn parse_decimal(s: &[u8], pos: usize) -> (r: Option<(u8, usize)>)
    ensures
        match r {
            Some((b, count)) => read_decimal(s@, pos as int) == Some((b, count as nat)) && 1
                <= count <= 3 && pos + count <= s@.len(),
            None => read_decimal(s@, pos as int) is None,
        },
{
    let n = s.len();
    if pos >= n || !is_digit(s[pos]) {
        return None;
    }
    let d0: u8 = s[pos] - 48;
    if pos + 1 >= n || !is_digit(s[pos + 1]) {
        return Some((d0, 1));
    }
    if d0 == 0 {
        return None;
    }
    let d1: u8 = s[pos + 1] - 48;
    if pos + 2 >= n || !is_digit(s[pos + 2]) {
        return Some((10 * d0 + d1, 2));
    }
    if pos + 3 < n && is_digit(s[pos + 3]) {
        return None;
    }
    let d2: u8 = s[pos + 2] - 48;
    let value: u16 = 100 * (d0 as u16) + 10 * (d1 as u16) + (d2 as u16);
    if value <= 255 {
        Some((value as u8, 3))
    } else {
        None
    }
}

fn parse_array(s: &[u8], start: usize) -> (r: Option<(Vec<u8>, usize)>)
    ensures
        match r {
            Some((v, next)) => read_array(s@, start as int) == Some((v@, next as int)) && next
                <= s@.len(),
            None => read_array(s@, start as int) is None,
        },
{
    let n = s.len();
    if start >= n || s[start] != 0x5b {
        return None;
    }
    let mut items: Vec<u8> = Vec::new();
    if start + 1 < n && s[start + 1] == 0x5d {
        return Some((items, start + 2));
    }
    let mut pos: usize = match parse_decimal(s, start + 1) {
        Some((b, count)) => {
            items.push(b);
            start + 1 + count
        },
        None => {
            return None;
        },
    };
    proof {
        assert(items@ =~= seq![items@[0]]);
    }
    while pos < n
        invariant
            pos <= n,
            n == s@.len(),
            read_array(s@, start as int) == read_tail(s@, pos as int, items@),
        decreases n - pos,
    {
        if s[pos] == 0x5d {
            return Some((items, pos + 1));
        }
        if s[pos] != 0x2c {
            return None;
        }
        match parse_decimal(s, pos + 1) {
            Some((b, count)) => {
                items.push(b);
                pos = pos + 1 + count;
            },
            None => {
                return None;
            },
        }
    }
    None
}

fn expect_literal(s: &[u8], pos: usize, lit: &[u8]) -> (r: Option<usize>)
    ensures
        match r {
            Some(next) => read_literal(s@, pos as int, lit@) == Some(next as int) && next
                <= s@.len(),
            None => read_literal(s@, pos as int, lit@) is None,
        },
{
    if pos > s.len() || lit.len() > s.len() - pos {
        return None;
    }
    let mut i: usize = 0;
    while i < lit.len()
        invariant
            i <= lit@.len(),
            pos + lit@.len() <= s@.len() <= usize::MAX,
            forall|j: int| 0 <= j < i ==> s@[pos + j] == lit@[j],
        decreases lit@.len() - i,
    {
        if s[pos + i] != lit[i] {
            proof {
                assert(s@.subrange(pos as int, pos + lit@.len())[i as int] == s@[pos + i]);
            }
            return None;
        }
        i = i + 1;
    }
    assert(s@.subrange(pos as int, pos + lit@.len()) =~= lit@);
    Some(pos + lit.len())
}

fn parse_field(s: &[u8], pos: usize, key: &[u8]) -> (r: Option<(Vec<u8>, usize)>)
    ensures
        match r {
            Some((v, next)) => read_field(s@, pos as int, key@) == Some((v@, next as int)) && next
                <= s@.len(),
            None => read_field(s@, pos as int, key@) is None,
        },
{
    match expect_literal(s, pos, key) {
        Some(next) => parse_array(s, next),
        None => None,
    }
}

fn parse_envelope(s: &[u8], pos: usize) -> (r: Option<(ConfidentialTransaction, usize)>)
    ensures
        match r {
            Some((tx, next)) => read_envelope(s@, pos as int) == Some((tx@, next as int)) && next
                <= s@.len(),
            None => read_envelope(s@, pos as int) is None,
        },
{
    let k0 = key_sender_bytes();
    let (sender, mark_a) = match parse_field(s, pos, k0.as_slice()) {
        Some(found) => found,
        None => {
            return None;
        },
    };
    let k1 = key_receiver_bytes();
    let (receiver, mark_b) = match parse_field(s, mark_a, k1.as_slice()) {
        Some(found) => found,
        None => {
            return None;
        },
    };
    let k2 = key_commitment_bytes();
    let (amount_commitment, mark_c) = match parse_field(s, mark_b, k2.as_slice()) {
        Some(found) => found,
        None => {
            return None;
        },
    };
    let k3 = key_proof_bytes();
    let (proof, mark_d) = match parse_field(s, mark_c, k3.as_slice()) {
        Some(found) => found,
        None => {
            return None;
        },
    };
    if mark_d < s.len() && s[mark_d] == 0x7d {
        Some((ConfidentialTransaction { sender, receiver, amount_commitment, proof }, mark_d + 1))
    } else {
        None
    }
}

/// The transaction that bytes are the JSON form of.
pub fn from_json_bytes(bytes: &[u8]) -> (r: Result<ConfidentialTransaction, ProtocolError>)
    ensures
        match r {
            Ok(tx) => json_decode(bytes@) == Some(tx@),
            Err(e) => e == ProtocolError::MalformedEnvelope && json_decode(bytes@) is None,
        },
{
    match parse_envelope(bytes, 0) {
        Some((tx, end)) => {
            if end == bytes.len() {
                Ok(tx)
            } else {
                Err(ProtocolError::MalformedEnvelope)
            }
        },
        None => Err(ProtocolError::MalformedEnvelope),
    }
}

/// The message of one connection for a signed transaction.
pub fn wire_bytes(signed: &SignedTransaction) -> (r: Vec<u8>)
    ensures
        r@ == wire_spec(signed@),
{
    let mut out: Vec<u8> = Vec::new();
    out.push(0x5b);
    let object = json_bytes(&signed.tx);
    append_bytes(&mut out, object.as_slice());
    out.push(0x2c);
    push_json_array(&mut out, signed.signature.as_slice());
    out.push(0x5d);
    assert(out@ =~= wire_spec(signed@));
    out
}

/// The signed transaction that bytes are the message of.
pub fn from_wire_bytes(bytes: &[u8]) -> (r: Result<SignedTransaction, ProtocolError>)
    ensures
        match r {
            Ok(signed) => wire_decode(bytes@) == Some(signed@),
            Err(e) => e == ProtocolError::MalformedEnvelope && wire_decode(bytes@) is None,
        },
{
    if bytes.len() == 0 || bytes[0] != 0x5b {
        return Err(ProtocolError::MalformedEnvelope);
    }
    let (tx, mark_a) = match parse_envelope(bytes, 1) {
        Some(found) => found,
        None => {
            return Err(ProtocolError::MalformedEnvelope);
        },
    };
    if mark_a >= bytes.len() || bytes[mark_a] != 0x2c {
        return Err(ProtocolError::MalformedEnvelope);
    }
    let (signature, mark_b) = match parse_array(bytes, mark_a + 1) {
        Some(found) => found,
        None => {
            return Err(ProtocolError::MalformedEnvelope);
        },
    };
    if mark_b < bytes.len() && bytes[mark_b] == 0x5d && mark_b + 1 == bytes.len() {
        Ok(SignedTransaction { tx, signature })
    } else {
        Err(ProtocolError::MalformedEnvelope)
    }
}

/// A stretch of `s` that equals `a + b` holds `a` and, after it, `b`.
proof fn lemma_split(s: Seq<u8>, pos: int, a: Seq<u8>, b: Seq<u8>)
    requires
        0 <= pos,
        pos + a.len() + b.len() <= s.len(),
        s.subrange(pos, pos + a.len() + b.len()) == a + b,
    ensures
        s.subrange(pos, pos + a.len()) == a,
        s.subrange(pos + a.len(), pos + a.len() + b.len()) == b,
{
    let whole = s.subrange(pos, pos + a.len() + b.len());
    assert forall|i: int| 0 <= i < a.len() implies s.subrange(pos, pos + a.len())[i] == a[i] by {
        assert(whole[i] == (a + b)[i]);
    }
    assert(s.subrange(pos, pos + a.len()) =~= a);
    assert forall|i: int| 0 <= i < b.len() implies s.subrange(
        pos + a.len(),
        pos + a.len() + b.len(),
    )[i] == b[i] by {
        assert(whole[a.len() + i] == (a + b)[a.len() + i]);
    }
    assert(s.subrange(pos + a.len(), pos + a.len() + b.len()) =~= b);
}

/// Where the decimal form of `b` stands at `pos` and no digit follows it, `b` is read.
proof fn lemma_read_decimal(s: Seq<u8>, pos: int, b: u8)
    requires
        0 <= pos,
        pos + decimal(b).len() <= s.len(),
        s.subrange(pos, pos + decimal(b).len()) == decimal(b),
        !digit_at(s, pos + decimal(b).len()),
    ensures
        read_decimal(s, pos) == Some((b, decimal(b).len())),
        1 <= decimal(b).len() <= 3,
{
    let d = decimal(b);
    let part = s.subrange(pos, pos + d.len());
    assert forall|i: int| 0 <= i < d.len() implies s[pos + i] == d[i] by {
        assert(part[i] == s[pos + i]);
    }
    if b < 10 {
        assert(s[pos] == d[0]);
    } else if b < 100 {
        assert(s[pos] == d[0]);
        assert(s[pos + 1] == d[1]);
    } else {
        assert(s[pos] == d[0]);
        assert(s[pos + 1] == d[1]);
        assert(s[pos + 2] == d[2]);
    }
}

/// What follows the first number of an array begins with a comma or with the bracket.
proof fn lemma_tail_starts(v: Seq<u8>)
    ensures
        json_tail(v).len() >= 1,
        json_tail(v)[0] == 0x5d || json_tail(v)[0] == 0x2c,
{
}

/// Where the rest of the array of `v` stands at `pos`, the bytes of `v` are read onto
/// `acc`.
#[verifier::rlimit(50)]
proof fn lemma_read_tail(s: Seq<u8>, pos: int, acc: Seq<u8>, v: Seq<u8>)
    requires
        0 <= pos,
        pos + json_tail(v).len() <= s.len(),
        s.subrange(pos, pos + json_tail(v).len()) == json_tail(v),
    ensures
        read_tail(s, pos, acc) == Some((acc + v, pos + json_tail(v).len())),
    decreases v.len(),
{
    let t = json_tail(v);
    lemma_tail_starts(v);
    assert(s.subrange(pos, pos + t.len())[0] == s[pos]);
    if v.len() == 0 {
        assert(acc + v =~= acc);
    } else {
        let d = decimal(v[0]);
        let rest = json_tail(v.skip(1));
        lemma_tail_starts(v.skip(1));
        assert(t == (seq![0x2cu8] + d) + rest);
        lemma_split(s, pos, seq![0x2cu8] + d, rest);
        lemma_split(s, pos, seq![0x2cu8], d);
        let after = pos + 1 + d.len();
        assert(s.subrange(after, after + rest.len())[0] == s[after]);
        lemma_read_decimal(s, pos + 1, v[0]);
        lemma_read_tail(s, after, acc.push(v[0]), v.skip(1));
        assert(acc.push(v[0]) + v.skip(1) =~= acc + v);
    }
}

/// Where the array of `v` stands at `pos`, `v` is read.
proof fn lemma_read_array(s: Seq<u8>, pos: int, v: Seq<u8>)
    requires
        0 <= pos,
        pos + json_array(v).len() <= s.len(),
        s.subrange(pos, pos + json_array(v).len()) == json_array(v),
    ensures
        read_array(s, pos) == Some((v, pos + json_array(v).len())),
{
    let a = json_array(v);
    let part = s.subrange(pos, pos + a.len());
    assert(part[0] == s[pos]);
    assert(part[1] == s[pos + 1]);
    if v.len() == 0 {
        assert(v =~= Seq::<u8>::empty());
    } else {
        let d = decimal(v[0]);
        let rest = json_tail(v.skip(1));
        lemma_tail_starts(v.skip(1));
        assert(a == (seq![0x5bu8] + d) + rest);
        lemma_split(s, pos, seq![0x5bu8] + d, rest);
        lemma_split(s, pos, seq![0x5bu8], d);
        let after = pos + 1 + d.len();
        assert(s.subrange(after, after + rest.len())[0] == s[after]);
        lemma_read_decimal(s, pos + 1, v[0]);
        assert(s.subrange(pos + 1, pos + 1 + d.len())[0] == s[pos + 1]);
        lemma_read_tail(s, after, seq![v[0]], v.skip(1));
        assert(seq![v[0]] + v.skip(1) =~= v);
    }
}

/// Where a key and the array of `v` stand at `pos`, `v` is read as the key's field.
proof fn lemma_read_field(s: Seq<u8>, pos: int, key: Seq<u8>, v: Seq<u8>)
    requires
        0 <= pos,
        pos + json_field(key, v).len() <= s.len(),
        s.subrange(pos, pos + json_field(key, v).len()) == json_field(key, v),
    ensures
        read_field(s, pos, key) == Some((v, pos + json_field(key, v).len())),
{
    lemma_split(s, pos, key, json_array(v));
    lemma_read_array(s, pos + key.len(), v);
}

/// Where the JSON object of an envelope stands at `pos`, the envelope is read.
#[verifier::rlimit(50)]
pub proof fn lemma_read_envelope(s: Seq<u8>, pos: int, e: Envelope)
    requires
        0 <= pos,
        pos + json_spec(e).len() <= s.len(),
        s.subrange(pos, pos + json_spec(e).len()) == json_spec(e),
    ensures
        read_envelope(s, pos) == Some((e, pos + json_spec(e).len())),
{
    let f0 = json_field(key_sender(), e.sender);
    let f1 = json_field(key_receiver(), e.receiver);
    let f2 = json_field(key_commitment(), e.amount_commitment);
    let f3 = json_field(key_proof(), e.proof);
    let close = seq![0x7du8];
    let mark_a = pos + f0.len();
    let mark_b = mark_a + f1.len();
    let mark_c = mark_b + f2.len();
    let mark_d = mark_c + f3.len();
    lemma_split(s, pos, ((f0 + f1) + f2) + f3, close);
    lemma_split(s, pos, (f0 + f1) + f2, f3);
    lemma_split(s, pos, f0 + f1, f2);
    lemma_split(s, pos, f0, f1);
    lemma_read_field(s, pos, key_sender(), e.sender);
    lemma_read_field(s, mark_a, key_receiver(), e.receiver);
    lemma_read_field(s, mark_b, key_commitment(), e.amount_commitment);
    lemma_read_field(s, mark_c, key_proof(), e.proof);
    assert(s.subrange(mark_d, mark_d + 1)[0] == s[mark_d]);
}

/// Reading the JSON object of an envelope gives the envelope back.
pub proof fn lemma_json_round_trip(e: Envelope)
    ensures
        json_decode(json_spec(e)) == Some(e),
{
    let s = json_spec(e);
    assert(s.subrange(0, s.len() as int) =~= s);
    lemma_read_envelope(s, 0, e);
}

/// Reading the message of a signed envelope gives the signed envelope back.
#[verifier::rlimit(50)]
pub proof fn lemma_wire_round_trip(signed: SignedEnvelope)
    ensures
        wire_decode(wire_spec(signed)) == Some(signed),
{
    let s = wire_spec(signed);
    let object = json_spec(signed.envelope);
    let array = json_array(signed.signature);
    let open = seq![0x5bu8];
    let comma = seq![0x2cu8];
    let close = seq![0x5du8];
    assert(s =~= (((open + object) + comma) + array) + close);
    assert(s.subrange(0, s.len() as int) =~= s);
    lemma_split(s, 0, ((open + object) + comma) + array, close);
    lemma_split(s, 0, (open + object) + comma, array);
    lemma_split(s, 0, open + object, comma);
    lemma_split(s, 0, open, object);
    lemma_read_envelope(s, 1, signed.envelope);
    let mark_a: int = 1 + object.len() as int;
    assert(s.subrange(mark_a, mark_a + 1)[0] == s[mark_a]);
    lemma_read_array(s, mark_a + 1, signed.signature);
    let mark_b: int = mark_a + 1 + array.len() as int;
    assert(s.subrange(mark_b, mark_b + 1)[0] == s[mark_b]);
}

/// A number that is read was written in the one way that the writer writes it.
proof fn lemma_decimal_read_back(s: Seq<u8>, pos: int)
    requires
        read_decimal(s, pos) is Some,
    ensures
        ({
            let (b, count) = read_decimal(s, pos)->0;
            &&& count == decimal(b).len()
            &&& 0 <= pos
            &&& pos + count <= s.len()
            &&& s.subrange(pos, pos + count) == decimal(b)
        }),
{
    let (b, count) = read_decimal(s, pos)->0;
    assert(s.subrange(pos, pos + count) =~= decimal(b));
}

/// What is read after the first number of an array was written in the one way that
/// the writer writes it.
#[verifier::rlimit(50)]
proof fn lemma_tail_read_back(s: Seq<u8>, pos: int, acc: Seq<u8>)
    requires
        read_tail(s, pos, acc) is Some,
    ensures
        ({
            let (out, end) = read_tail(s, pos, acc)->0;
            &&& acc.len() <= out.len()
            &&& out.subrange(0, acc.len() as int) == acc
            &&& 0 <= pos < end <= s.len()
            &&& s.subrange(pos, end) == json_tail(out.subrange(acc.len() as int, out.len() as int))
        }),
    decreases s.len() - pos,
{
    let (out, end) = read_tail(s, pos, acc)->0;
    if s[pos] == 0x5d {
        assert(out.subrange(0, acc.len() as int) =~= acc);
        assert(out.subrange(acc.len() as int, out.len() as int) =~= Seq::<u8>::empty());
        assert(s.subrange(pos, end) =~= seq![0x5du8]);
    } else {
        let (b, count) = read_decimal(s, pos + 1)->0;
        lemma_decimal_read_back(s, pos + 1);
        let next = pos + 1 + count;
        let grown = acc.push(b);
        lemma_tail_read_back(s, next, grown);
        let v = out.subrange(acc.len() as int, out.len() as int);
        let w = out.subrange(grown.len() as int, out.len() as int);
        assert(out.subrange(0, grown.len() as int)[acc.len() as int] == b);
        assert(out.subrange(0, acc.len() as int) =~= out.subrange(0, grown.len() as int).subrange(
            0,
            acc.len() as int,
        ));
        assert(grown.subrange(0, acc.len() as int) =~= acc);
        assert(v[0] == b);
        assert(v.skip(1) =~= w);
        assert(s.subrange(pos, end) =~= seq![0x2cu8] + s.subrange(pos + 1, next) + s.subrange(
            next,
            end,
        ));
    }
}

/// An array that is read was written in the one way that the writer writes it.
proof fn lemma_array_read_back(s: Seq<u8>, pos: int)
    requires
        read_array(s, pos) is Some,
    ensures
        ({
            let (v, end) = read_array(s, pos)->0;
            &&& 0 <= pos < end <= s.len()
            &&& s.subrange(pos, end) == json_array(v)
        }),
{
    let (v, end) = read_array(s, pos)->0;
    if pos + 1 < s.len() && s[pos + 1] == 0x5d {
        assert(s.subrange(pos, end) =~= seq![0x5bu8, 0x5du8]);
    } else {
        let (b, count) = read_decimal(s, pos + 1)->0;
        lemma_decimal_read_back(s, pos + 1);
        let next = pos + 1 + count;
        lemma_tail_read_back(s, next, seq![b]);
        assert(v.subrange(0, 1)[0] == b);
        assert(v.skip(1) =~= v.subrange(1, v.len() as int));
        assert(s.subrange(pos, end) =~= seq![0x5bu8] + s.subrange(pos + 1, next) + s.subrange(
            next,
            end,
        ));
    }
}

/// Two stretches of `s` that meet make up the stretch over both.
proof fn lemma_join(s: Seq<u8>, from: int, mid: int, to: int)
    requires
        0 <= from <= mid <= to <= s.len(),
    ensures
        s.subrange(from, to) == s.subrange(from, mid) + s.subrange(mid, to),
{
    assert(s.subrange(from, to) =~= s.subrange(from, mid) + s.subrange(mid, to));
}

/// A stretch of one byte holds that byte.
proof fn lemma_single(s: Seq<u8>, pos: int)
    requires
        0 <= pos < s.len(),
    ensures
        s.subrange(pos, pos + 1) == seq![s[pos]],
{
    assert(s.subrange(pos, pos + 1) =~= seq![s[pos]]);
}

/// A field that is read was written in the one way that the writer writes it.
proof fn lemma_field_read_back(s: Seq<u8>, pos: int, key: Seq<u8>)
    requires
        read_field(s, pos, key) is Some,
    ensures
        ({
            let (v, end) = read_field(s, pos, key)->0;
            &&& 0 <= pos < end <= s.len()
            &&& s.subrange(pos, end) == json_field(key, v)
        }),
{
    let (v, end) = read_field(s, pos, key)->0;
    let mid = read_literal(s, pos, key)->0;
    lemma_array_read_back(s, mid);
    lemma_join(s, pos, mid, end);
}

/// An envelope that is read was written in the one way that the writer writes it.
#[verifier::rlimit(50)]
pub proof fn lemma_envelope_read_back(s: Seq<u8>, pos: int)
    requires
        read_envelope(s, pos) is Some,
    ensures
        ({
            let (e, end) = read_envelope(s, pos)->0;
            &&& 0 <= pos < end <= s.len()
            &&& s.subrange(pos, end) == json_spec(e)
        }),
{
    let (e, end) = read_envelope(s, pos)->0;
    let (sender, mark_a) = read_field(s, pos, key_sender())->0;
    lemma_field_read_back(s, pos, key_sender());
    let (receiver, mark_b) = read_field(s, mark_a, key_receiver())->0;
    lemma_field_read_back(s, mark_a, key_receiver());
    let (amount_commitment, mark_c) = read_field(s, mark_b, key_commitment())->0;
    lemma_field_read_back(s, mark_b, key_commitment());
    let (proof, mark_d) = read_field(s, mark_c, key_proof())->0;
    lemma_field_read_back(s, mark_c, key_proof());
    assert(end == mark_d + 1);
    lemma_join(s, pos, mark_a, mark_b);
    lemma_join(s, pos, mark_b, mark_c);
    lemma_join(s, pos, mark_c, mark_d);
    lemma_join(s, pos, mark_d, end);
    lemma_single(s, mark_d);
}

/// The reader accepts the writer's bytes only: what decodes to an envelope is the JSON
/// object of that envelope.
pub proof fn lemma_json_canonical(s: Seq<u8>)
    requires
        json_decode(s) is Some,
    ensures
        json_spec(json_decode(s)->0) == s,
{
    lemma_envelope_read_back(s, 0);
    assert(s.subrange(0, s.len() as int) =~= s);
}

/// The reader accepts the writer's bytes only: what decodes to a signed envelope is the
/// message of that signed envelope.
#[verifier::rlimit(50)]
pub proof fn lemma_wire_canonical(s: Seq<u8>)
    requires
        wire_decode(s) is Some,
    ensures
        wire_spec(wire_decode(s)->0) == s,
{
    let (envelope, mark_a) = read_envelope(s, 1)->0;
    lemma_envelope_read_back(s, 1);
    let (signature, mark_b) = read_array(s, mark_a + 1)->0;
    lemma_array_read_back(s, mark_a + 1);
    lemma_single(s, 0);
    lemma_single(s, mark_a);
    lemma_single(s, mark_b);
    lemma_join(s, 0, 1, mark_a);
    lemma_join(s, 0, mark_a, mark_a + 1);
    lemma_join(s, 0, mark_a + 1, mark_b);
    lemma_join(s, 0, mark_b, mark_b + 1);
    assert(s.subrange(0, s.len() as int) =~= s);
}

/// Two envelopes with the same JSON object are the same envelope: a change in any
/// field changes the bytes that are signed.
pub proof fn lemma_json_injective(first: Envelope, second: Envelope)
    requires
        json_spec(first) == json_spec(second),
    ensures
        first == second,
{
    lemma_json_round_trip(first);
    lemma_json_round_trip(second);
}

} // verus!
