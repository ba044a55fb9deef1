use vstd::prelude::*;
use vstd::arithmetic::div_mod::lemma_mod_breakdown;
use vstd::arithmetic::power::{pow, lemma_pow_increases, lemma_pow_positive};

verus! {

// Record ids are serial numbers. Their text form is a 24-digit hexadecimal
// object id: four zero bytes followed by the serial in big-endian order.

/// Whether `c` is an ASCII hexadecimal digit, in either case.
pub open spec fn is_hex_digit(c: char) -> bool {
    ||| ('0' as u32 <= c as u32 && c as u32 <= '9' as u32)
    ||| ('a' as u32 <= c as u32 && c as u32 <= 'f' as u32)
    ||| ('A' as u32 <= c as u32 && c as u32 <= 'F' as u32)
}

/// Whether `c` is a decimal digit or a lower-case letter `a` to `f`.
pub open spec fn is_lower_hex_digit(c: char) -> bool {
    ||| ('0' as u32 <= c as u32 && c as u32 <= '9' as u32)
    ||| ('a' as u32 <= c as u32 && c as u32 <= 'f' as u32)
}

/// The value of a hexadecimal digit.
pub open spec fn hex_value(c: char) -> int {
    if '0' as u32 <= c as u32 && c as u32 <= '9' as u32 {
        c as u32 - '0' as u32
    } else if 'a' as u32 <= c as u32 && c as u32 <= 'f' as u32 {
        c as u32 - 'a' as u32 + 10
    } else {
        c as u32 - 'A' as u32 + 10
    }
}

/// Whether `s` is the text of an object id: exactly 24 hexadecimal digits.
pub open spec fn is_object_id_text(s: Seq<char>) -> bool {
    &&& s.len() == 24
    &&& forall|i: int| 0 <= i < s.len() ==> is_hex_digit(#[trigger] s[i])
}

/// The bytes that a string of hexadecimal digits spells, two digits a byte.
pub open spec fn hex_bytes(s: Seq<char>) -> Seq<u8> {
    Seq::new(s.len() / 2, |i: int| (hex_value(s[2 * i]) * 16 + hex_value(s[2 * i + 1])) as u8)
}

/// The number that a byte string spells, most significant byte first.
pub open spec fn be_value(b: Seq<u8>) -> nat
    decreases b.len(),
{
    if b.len() == 0 {
        0
    } else {
        be_value(b.drop_last()) * 256 + b.last() as nat
    }
}

/// The `k` low bytes of `n`, most significant first.
pub open spec fn be_bytes(n: nat, k: nat) -> Seq<u8>
    decreases k,
{
    if k == 0 {
        seq![]
    } else {
        be_bytes(n / 256, (k - 1) as nat).push((n % 256) as u8)
    }
}

/// The twelve bytes of the object id that stands for serial `n`.
pub open spec fn serial_bytes(n: u64) -> Seq<u8> {
    seq![0u8, 0u8, 0u8, 0u8] + be_bytes(n as nat, 8)
}

/// The serial that twelve object-id bytes stand for, if they stand for one.
pub open spec fn serial_of_bytes(b: Seq<u8>) -> Option<u64> {
    if b.len() == 12 && b[0] == 0 && b[1] == 0 && b[2] == 0 && b[3] == 0 {
        Some(be_value(b.subrange(4, 12)) as u64)
    } else {
        None
    }
}

/// The record serial that an id text names, if it names one.
pub open spec fn id_of_text(s: Seq<char>) -> Option<u64> {
    if is_object_id_text(s) {
        serial_of_bytes(hex_bytes(s))
    } else {
        None
    }
}

/// Relies on bson's `ObjectId::parse_str`, which hex-decodes the string and
/// accepts it exactly when that yields twelve bytes: 24 hexadecimal digits of
/// either case, each pair one byte.
#[verifier::external_body]
fn decode_object_id(s: &str) -> (r: Option<Vec<u8>>)
    ensures
        r is Some <==> is_object_id_text(s@),
        r matches Some(b) ==> b@ == hex_bytes(s@),
{
    bson::oid::ObjectId::parse_str(s).ok().map(|o| o.bytes().to_vec())
}

/// Relies on bson's `ObjectId::to_hex`, which hex-encodes the twelve bytes
/// with lower-case digits, two digits a byte.
#[verifier::external_body]
fn encode_object_id(b: &Vec<u8>) -> (r: String)
    requires
        b@.len() == 12,
    ensures
        r@.len() == 24,
        forall|i: int| 0 <= i < r@.len() ==> is_lower_hex_digit(#[trigger] r@[i]),
        hex_bytes(r@) == b@,
{
    let mut a = [0u8; 12];
    a.copy_from_slice(b.as_slice());
    bson::oid::ObjectId::from_bytes(a).to_hex()
}

proof fn lemma_be_value_bound(b: Seq<u8>)
    ensures
        be_value(b) < pow(256, b.len()),
    decreases b.len(),
{
    reveal(pow);
    if b.len() > 0 {
        lemma_be_value_bound(b.drop_last());
        let p = pow(256, (b.len() - 1) as nat);
        let v = be_value(b.drop_last());
        let d = b.last() as nat;
        assert(v * 256 + d < p * 256) by (nonlinear_arith)
            requires v < p, d < 256;
    }
}

proof fn lemma_be_round_trip(n: nat, k: nat)
    ensures
        be_bytes(n, k).len() == k,
        be_value(be_bytes(n, k)) == (n as int) % pow(256, k),
    decreases k,
{
    reveal(pow);
    if k > 0 {
        lemma_be_round_trip(n / 256, (k - 1) as nat);
        let b = be_bytes(n, k);
        assert(b.drop_last() =~= be_bytes(n / 256, (k - 1) as nat));
        lemma_pow_positive(256, (k - 1) as nat);
        lemma_mod_breakdown(n as int, 256, pow(256, (k - 1) as nat));
    }
}

proof fn lemma_pow256_8()
    ensures
        pow(256, 8) == 0x1_0000_0000_0000_0000,
{
    reveal_with_fuel(pow, 9);
}

fn serial_from_bytes(b: &Vec<u8>) -> (r: Option<u64>)
    requires
        b@.len() == 12,
    ensures
        r == serial_of_bytes(b@),
{
    if b[0] != 0 || b[1] != 0 || b[2] != 0 || b[3] != 0 {
        return None;
    }
    let mut acc: u64 = 0;
    let mut i: usize = 4;
    while i < 12
        invariant
            4 <= i <= 12,
            b@.len() == 12,
            acc as nat == be_value(b@.subrange(4, i as int)),
        decreases 12 - i,
    {
        let ghost next = b@.subrange(4, i as int + 1);
        proof {
            assert(next.drop_last() =~= b@.subrange(4, i as int));
            lemma_be_value_bound(next);
            lemma_pow_increases(256, next.len(), 8);
            lemma_pow256_8();
        }
        acc = acc * 256 + b[i] as u64;
        i += 1;
    }
    assert(b@.subrange(4, 12) =~= b@.subrange(4, i as int));
    Some(acc)
}

fn be_bytes_of(n: u64, k: usize) -> (r: Vec<u8>)
    requires
        k <= 8,
    ensures
        r@ == be_bytes(n as nat, k as nat),
    decreases k,
{
    if k == 0 {
        Vec::new()
    } else {
        let mut r = be_bytes_of(n / 256, k - 1);
        r.push((n % 256) as u8);
        r
    }
}

fn serial_to_bytes(n: u64) -> (r: Vec<u8>)
    ensures
        r@ == serial_bytes(n),
{
    let low = be_bytes_of(n, 8);
    let mut r: Vec<u8> = vec![0u8, 0u8, 0u8, 0u8];
    let mut i: usize = 0;
    while i < 8
        invariant
            i <= 8,
            low@ == be_bytes(n as nat, 8),
            r@ == seq![0u8, 0u8, 0u8, 0u8] + low@.subrange(0, i as int),
        decreases 8 - i,
    {
        proof {
            lemma_be_round_trip(n as nat, 8);
        }
        r.push(low[i]);
        i += 1;
        assert(r@ =~= seq![0u8, 0u8, 0u8, 0u8] + low@.subrange(0, i as int));
    }
    proof {
        lemma_be_round_trip(n as nat, 8);
        assert(low@.subrange(0, 8) =~= low@);
    }
    r
}

/// Reads the record serial that an id text names: `None` unless the text is
/// 24 hexadecimal digits whose first eight are zeros.
pub fn parse_record_id(s: &str) -> (r: Option<u64>)
    ensures
        r == id_of_text(s@),
{
    match decode_object_id(s) {
        None => None,
        Some(b) => serial_from_bytes(&b),
    }
}

/// The text form of a record serial: 24 lower-case hexadecimal digits that
/// spell the serial's object-id bytes. Reading it back gives the serial.
pub fn record_id_text(n: u64) -> (r: String)
    ensures
        r@.len() == 24,
        forall|i: int| 0 <= i < r@.len() ==> is_lower_hex_digit(#[trigger] r@[i]),
        hex_bytes(r@) == serial_bytes(n),
        id_of_text(r@) == Some(n),
{
    let b = serial_to_bytes(n);
    proof {
        lemma_be_round_trip(n as nat, 8);
    }
    let r = encode_object_id(&b);
    proof {
        assert(is_object_id_text(r@)) by {
            assert forall|i: int| 0 <= i < r@.len() implies is_hex_digit(#[trigger] r@[i]) by {
                assert(is_lower_hex_digit(r@[i]));
            }
        }
        lemma_be_round_trip(n as nat, 8);
        lemma_pow256_8();
        assert(serial_bytes(n).subrange(4, 12) =~= be_bytes(n as nat, 8));
    }
    r
}

} // verus!
