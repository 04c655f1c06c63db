//! Holder identifiers. An identifier is a UUID, held here as the `u128` whose
//! big-endian bytes are the UUID's sixteen bytes.

use vstd::prelude::*;

verus! {

/// 256 to the power `n`.
pub open spec fn pow256(n: nat) -> nat
    decreases n,
{
    if n == 0 {
        1
    } else {
        256 * pow256((n - 1) as nat)
    }
}

/// The number that a big-endian byte string stands for.
pub open spec fn be_value(s: Seq<u8>) -> nat
    decreases s.len(),
{
    if s.len() == 0 {
        0
    } else {
        be_value(s.drop_last()) * 256 + s.last() as nat
    }
}

/// The `n` low bytes of `v`, most significant first.
pub open spec fn be_bytes(v: nat, n: nat) -> Seq<u8>
    decreases n,
{
    if n == 0 {
        seq![]
    } else {
        be_bytes(v / 256, (n - 1) as nat).push((v % 256) as u8)
    }
}

/// The sixteen bytes of the UUID that an identifier stands for.
pub open spec fn id_bytes(id: u128) -> Seq<u8> {
    be_bytes(id as nat, 16)
}

pub proof fn lemma_pow256_16()
    ensures
        pow256(16) == 0x1_0000_0000_0000_0000_0000_0000_0000_0000,
{
    reveal_with_fuel(pow256, 17);
}

pub proof fn lemma_be_bytes_len(v: nat, n: nat)
    ensures
        be_bytes(v, n).len() == n,
    decreases n,
{
    if n > 0 {
        lemma_be_bytes_len(v / 256, (n - 1) as nat);
    }
}

/// Reading back `n` big-endian bytes of a number below `256^n` gives the number.
pub proof fn lemma_be_value_of_bytes(v: nat, n: nat)
    requires
        v < pow256(n),
    ensures
        be_value(be_bytes(v, n)) == v,
    decreases n,
{
    if n > 0 {
        let p = pow256((n - 1) as nat);
        assert(v / 256 < p) by (nonlinear_arith)
            requires
                v < 256 * p,
        ;
        lemma_be_value_of_bytes(v / 256, (n - 1) as nat);
        let s = be_bytes(v, n);
        assert(s.drop_last() =~= be_bytes(v / 256, (n - 1) as nat));
    }
}

/// Two byte strings of one length that stand for the same number are equal.
pub proof fn lemma_be_value_injective(a: Seq<u8>, b: Seq<u8>)
    requires
        a.len() == b.len(),
        be_value(a) == be_value(b),
    ensures
        a == b,
    decreases a.len(),
{
    if a.len() > 0 {
        let x = be_value(a.drop_last());
        let y = be_value(b.drop_last());
        let r = a.last() as nat;
        let t = b.last() as nat;
        assert(r == t && x == y) by (nonlinear_arith)
            requires
                x * 256 + r == y * 256 + t,
                r < 256,
                t < 256,
        ;
        lemma_be_value_injective(a.drop_last(), b.drop_last());
        assert(a =~= a.drop_last().push(a.last()));
        assert(b =~= b.drop_last().push(b.last()));
    } else {
        assert(a =~= b);
    }
}

/// A big-endian byte string stands for a number below `256^len`.
pub proof fn lemma_be_value_bound(s: Seq<u8>)
    ensures
        be_value(s) < pow256(s.len()),
    decreases s.len(),
{
    if s.len() > 0 {
        lemma_be_value_bound(s.drop_last());
        let x = be_value(s.drop_last());
        let p = pow256((s.len() - 1) as nat);
        let r = s.last() as nat;
        assert(x * 256 + r < 256 * p) by (nonlinear_arith)
            requires
                x < p,
                r < 256,
        ;
    }
}

/// Sixteen bytes are the bytes of the identifier they stand for.
pub proof fn lemma_bytes_id_roundtrip(s: Seq<u8>)
    requires
        s.len() == 16,
    ensures
        be_value(s) < 0x1_0000_0000_0000_0000_0000_0000_0000_0000,
        id_bytes(be_value(s) as u128) == s,
{
    lemma_be_value_bound(s);
    lemma_pow256_16();
    let id = be_value(s) as u128;
    lemma_id_bytes_roundtrip(id);
    lemma_be_value_injective(id_bytes(id), s);
}

pub proof fn lemma_pow256_positive(n: nat)
    ensures
        pow256(n) > 0,
    decreases n,
{
    if n > 0 {
        lemma_pow256_positive((n - 1) as nat);
    }
}

/// Byte `i` of the `n` big-endian bytes of `v` is digit `n - 1 - i` of `v`
/// in base 256.
pub proof fn lemma_be_bytes_index(v: nat, n: nat, i: int)
    requires
        0 <= i < n,
    ensures
        be_bytes(v, n).len() == n,
        be_bytes(v, n)[i] as nat == (v / pow256((n - 1 - i) as nat)) % 256,
    decreases n,
{
    lemma_be_bytes_len(v, n);
    lemma_be_bytes_len(v / 256, (n - 1) as nat);
    if i < n - 1 {
        lemma_be_bytes_index(v / 256, (n - 1) as nat, i);
        let k = (n - 2 - i) as nat;
        lemma_pow256_positive(k);
        vstd::arithmetic::div_mod::lemma_div_denominator(v as int, 256, pow256(k) as int);
        assert(pow256((n - 1 - i) as nat) == 256 * pow256(k));
        assert(be_bytes(v, n)[i] == be_bytes(v / 256, (n - 1) as nat)[i]);
    } else {
        assert(pow256(0) == 1);
        assert(be_bytes(v, n)[i] == (v % 256) as u8);
        assert(v / 1 == v);
    }
}

/// The identifier's bytes are its sixteen base-256 digits, most significant
/// first: byte `i` is `(id / 256^(15 - i)) % 256`.
pub proof fn lemma_id_bytes_digits(id: u128, i: int)
    requires
        0 <= i < 16,
    ensures
        id_bytes(id).len() == 16,
        id_bytes(id)[i] as nat == (id as nat / pow256((15 - i) as nat)) % 256,
{
    lemma_be_bytes_index(id as nat, 16, i);
}

/// The identifier's bytes read back give the identifier.
pub proof fn lemma_id_bytes_roundtrip(id: u128)
    ensures
        id_bytes(id).len() == 16,
        be_value(id_bytes(id)) == id,
{
    lemma_pow256_16();
    lemma_be_bytes_len(id as nat, 16);
    lemma_be_value_of_bytes(id as nat, 16);
}

/// `uuid::Uuid::from_u128` followed by `Uuid::as_bytes`.
/// Claimed: the sixteen bytes are the identifier in big-endian order
/// (`from_u128` is `Uuid::from_bytes(v.to_be_bytes())`).
#[verifier::external_body]
pub(crate) fn id_to_bytes(id: u128) -> (r: Vec<u8>)
    ensures
        r@ == id_bytes(id),
{
    uuid::Uuid::from_u128(id).as_bytes().to_vec()
}

/// `uuid::Uuid::from_slice` followed by `Uuid::as_u128`.
/// Claimed: for sixteen bytes the identifier is the bytes read big-endian
/// (`as_u128` is `u128::from_be_bytes`); `from_slice` fails only on another length.
#[verifier::external_body]
pub(crate) fn id_from_bytes(b: &[u8]) -> (r: u128)
    requires
        b@.len() == 16,
    ensures
        r == be_value(b@),
{
    match uuid::Uuid::from_slice(b) {
        Ok(u) => u.as_u128(),
        Err(_) => 0,
    }
}

/// `uuid::Uuid::new_v4`, taken as its `u128`.
/// The result is random; claimed only what holds of every outcome: the
/// version nibble is 4 and the variant bits are `10` (`new_v4` masks them so).
#[verifier::external_body]
pub(crate) fn fresh_id() -> (r: u128)
    ensures
        r & 0xF000_C000_0000_0000_0000u128 == 0x4000_8000_0000_0000_0000u128,
{
    uuid::Uuid::new_v4().as_u128()
}

} // verus!
