//! Positional little-endian byte layout: fixed-width unsigned integers,
//! length-prefixed UTF-8 strings and one-byte booleans.
use vstd::prelude::*;
use vstd::string::*;
use vstd::utf8::*;

verus! {

/// 256 to the power `n`.
pub open spec fn pow256(n: nat) -> nat
    decreases n,
{
    if n == 0 {
        1
    } else {
        256 * pow256((n - 1) as nat)
    }
}

/// The `n` low bytes of `v`, least significant first.
pub open spec fn le_bytes(v: nat, n: nat) -> Seq<u8>
    decreases n,
{
    if n == 0 {
        Seq::empty()
    } else {
        seq![(v % 256) as u8] + le_bytes(v / 256, (n - 1) as nat)
    }
}

/// The number that the bytes `b` spell, least significant first.
pub open spec fn le_value(b: Seq<u8>) -> nat
    decreases b.len(),
{
    if b.len() == 0 {
        0
    } else {
        b[0] as nat + 256 * le_value(b.drop_first())
    }
}

pub proof fn lemma_pow256_pos(n: nat)
    ensures
        pow256(n) >= 1,
    decreases n,
{
    if n > 0 {
        lemma_pow256_pos((n - 1) as nat);
    }
}

pub proof fn lemma_le_bytes_len(v: nat, n: nat)
    ensures
        le_bytes(v, n).len() == n,
    decreases n,
{
    if n > 0 {
        lemma_le_bytes_len(v / 256, (n - 1) as nat);
    }
}

pub proof fn lemma_le_value_bound(b: Seq<u8>)
    ensures
        le_value(b) < pow256(b.len()),
    decreases b.len(),
{
    if b.len() > 0 {
        lemma_le_value_bound(b.drop_first());
        assert(le_value(b) < pow256(b.len())) by (nonlinear_arith)
            requires
                le_value(b) == b[0] as nat + 256 * le_value(b.drop_first()),
                le_value(b.drop_first()) < pow256(b.drop_first().len()),
                pow256(b.len()) == 256 * pow256(b.drop_first().len()),
                b[0] < 256,
        ;
    }
}

/// Reading back `n` written bytes gives the value, when it fits.
pub proof fn lemma_le_value_of_bytes(v: nat, n: nat)
    requires
        v < pow256(n),
    ensures
        le_value(le_bytes(v, n)) == v,
    decreases n,
{
    if n > 0 {
        let t = le_bytes(v / 256, (n - 1) as nat);
        assert(v / 256 < pow256((n - 1) as nat)) by (nonlinear_arith)
            requires
                v < pow256(n),
                pow256(n) == 256 * pow256((n - 1) as nat),
        ;
        lemma_le_value_of_bytes(v / 256, (n - 1) as nat);
        assert(le_bytes(v, n).drop_first() =~= t);
        assert(v == (v % 256) + 256 * (v / 256)) by (nonlinear_arith);
    }
}

/// Writing the value of `b` back gives `b`.
pub proof fn lemma_le_bytes_of_value(b: Seq<u8>)
    ensures
        le_bytes(le_value(b), b.len()) == b,
    decreases b.len(),
{
    if b.len() > 0 {
        let r = b.drop_first();
        lemma_le_bytes_of_value(r);
        let v = le_value(b);
        assert(v % 256 == b[0] as nat && v / 256 == le_value(r)) by (nonlinear_arith)
            requires
                v == b[0] as nat + 256 * le_value(r),
                b[0] < 256,
        ;
        assert(le_bytes(v, b.len()) =~= b);
    }
}

/// Two byte strings of one width spelling the same value are equal.
pub proof fn lemma_le_bytes_injective(v: nat, w: nat, n: nat)
    requires
        v < pow256(n),
        w < pow256(n),
        le_bytes(v, n) == le_bytes(w, n),
    ensures
        v == w,
{
    lemma_le_value_of_bytes(v, n);
    lemma_le_value_of_bytes(w, n);
}

/// The layout of a string: its UTF-8 byte length as four bytes, then the bytes.
pub open spec fn str_bytes(s: Seq<char>) -> Seq<u8> {
    le_bytes(encode_utf8(s).len(), 4) + encode_utf8(s)
}

/// A string fits the layout when its UTF-8 length fits four bytes.
pub open spec fn str_fits(s: Seq<char>) -> bool {
    encode_utf8(s).len() <= u32::MAX
}

/// The layout of a boolean: one byte, 1 for true and 0 for false.
pub open spec fn bool_bytes(b: bool) -> Seq<u8> {
    seq![if b { 1u8 } else { 0u8 }]
}

/// Reads an `n`-byte unsigned integer at `pos`, with the position after it.
pub open spec fn take_uint(b: Seq<u8>, pos: int, n: nat) -> Option<(nat, int)> {
    if 0 <= pos && pos + n <= b.len() {
        Some((le_value(b.subrange(pos, pos + n)), pos + n))
    } else {
        None
    }
}

/// Reads a length-prefixed UTF-8 string at `pos`, with the position after it.
pub open spec fn take_str(b: Seq<u8>, pos: int) -> Option<(Seq<char>, int)> {
    match take_uint(b, pos, 4) {
        Some((len, p)) => {
            if p + len <= b.len() && valid_utf8(b.subrange(p, p + len)) {
                Some((decode_utf8(b.subrange(p, p + len)), p + len))
            } else {
                None
            }
        },
        None => None,
    }
}

/// Reads a boolean byte at `pos`; any byte other than 0 or 1 is refused.
pub open spec fn take_bool(b: Seq<u8>, pos: int) -> Option<(bool, int)> {
    if 0 <= pos < b.len() && (b[pos] == 0 || b[pos] == 1) {
        Some((b[pos] == 1, pos + 1))
    } else {
        None
    }
}

pub proof fn lemma_pow256_4()
    ensures
        pow256(4) == 4294967296,
{
    reveal_with_fuel(pow256, 5);
}

pub proof fn lemma_take_uint(pre: Seq<u8>, v: nat, n: nat, post: Seq<u8>)
    requires
        v < pow256(n),
    ensures
        take_uint(pre + le_bytes(v, n) + post, pre.len() as int, n) == Some(
            (v, pre.len() + n as int),
        ),
{
    lemma_le_bytes_len(v, n);
    lemma_le_value_of_bytes(v, n);
    let b = pre + le_bytes(v, n) + post;
    assert(b.subrange(pre.len() as int, pre.len() + n as int) =~= le_bytes(v, n));
}

pub proof fn lemma_take_str(pre: Seq<u8>, s: Seq<char>, post: Seq<u8>)
    requires
        str_fits(s),
    ensures
        take_str(pre + str_bytes(s) + post, pre.len() as int) == Some(
            (s, pre.len() + str_bytes(s).len() as int),
        ),
{
    let e = encode_utf8(s);
    let b = pre + str_bytes(s) + post;
    lemma_pow256_4();
    lemma_le_bytes_len(e.len(), 4);
    assert(b =~= pre + le_bytes(e.len(), 4) + (e + post));
    lemma_take_uint(pre, e.len(), 4, e + post);
    let p: int = pre.len() + 4int;
    assert(b.subrange(p, p + e.len() as int) =~= e);
    encode_utf8_valid_utf8(s);
    encode_utf8_decode_utf8(s);
}

pub proof fn lemma_take_bool(pre: Seq<u8>, v: bool, post: Seq<u8>)
    ensures
        take_bool(pre + bool_bytes(v) + post, pre.len() as int) == Some((v, pre.len() + 1int)),
{
    let b = pre + bool_bytes(v) + post;
    assert(b[pre.len() as int] == bool_bytes(v)[0]);
}

pub proof fn lemma_pow256_mono(m: nat, n: nat)
    requires
        m <= n,
    ensures
        pow256(m) <= pow256(n),
    decreases n - m,
{
    if m < n {
        lemma_pow256_mono(m, (n - 1) as nat);
        lemma_pow256_pos((n - 1) as nat);
    }
}

pub proof fn lemma_pow256_16()
    ensures
        pow256(16) == u128::MAX + 1,
{
    reveal_with_fuel(pow256, 17);
}

/// What a successful string read covers is the layout of the string read.
pub proof fn lemma_take_str_inv(b: Seq<u8>, pos: int)
    requires
        take_str(b, pos) is Some,
    ensures
        ({
            let (s, p) = take_str(b, pos)->0;
            &&& 0 <= pos <= p <= b.len()
            &&& str_fits(s)
            &&& b.subrange(pos, p) == str_bytes(s)
        }),
{
    let (len, q) = take_uint(b, pos, 4)->0;
    let lb = b.subrange(pos, q);
    let sub = b.subrange(q, q + len);
    lemma_le_bytes_of_value(lb);
    decode_utf8_encode_utf8(sub);
    lemma_le_value_bound(lb);
    lemma_pow256_4();
    assert(b.subrange(pos, q + len) =~= lb + sub);
}

/// What a successful integer read covers is the layout of the value read.
pub proof fn lemma_take_uint_inv(b: Seq<u8>, pos: int, n: nat)
    requires
        take_uint(b, pos, n) is Some,
    ensures
        ({
            let (v, p) = take_uint(b, pos, n)->0;
            &&& p == pos + n <= b.len()
            &&& 0 <= pos
            &&& v < pow256(n)
            &&& b.subrange(pos, p) == le_bytes(v, n)
        }),
{
    let sub = b.subrange(pos, pos + n);
    lemma_le_bytes_of_value(sub);
    lemma_le_value_bound(sub);
}

/// Appends the `n` low bytes of `v`, least significant first.
pub fn push_uint(out: &mut Vec<u8>, v: u128, n: usize)
    requires
        n <= 16,
        v < pow256(n as nat),
    ensures
        final(out)@ == old(out)@ + le_bytes(v as nat, n as nat),
{
    let mut x: u128 = v;
    let mut k: usize = 0;
    while k < n
        invariant
            k <= n,
            out@ + le_bytes(x as nat, (n - k) as nat) == old(out)@ + le_bytes(v as nat, n as nat),
        decreases n - k,
    {
        let ghost before = out@;
        let ghost m = (n - k) as nat;
        out.push((x % 256) as u8);
        assert(le_bytes(x as nat, m) == seq![(x as nat % 256) as u8] + le_bytes(
            x as nat / 256,
            (m - 1) as nat,
        ));
        assert(out@ + le_bytes((x / 256) as nat, (m - 1) as nat) =~= before + le_bytes(
            x as nat,
            m,
        ));
        x = x / 256;
        k = k + 1;
    }
    assert(out@ + le_bytes(x as nat, 0) =~= out@);
}

/// Reads the `n`-byte unsigned integer at `pos`.
pub fn read_uint(b: &Vec<u8>, pos: usize, n: usize) -> (r: Option<(u128, usize)>)
    requires
        n <= 16,
    ensures
        r is Some <==> take_uint(b@, pos as int, n as nat) is Some,
        r matches Some((v, p)) ==> take_uint(b@, pos as int, n as nat) == Some(
            (v as nat, p as int),
        ),
{
    if pos > b.len() || n > b.len() - pos {
        return None;
    }
    let end: usize = pos + n;
    let mut i: usize = end;
    let mut acc: u128 = 0;
    proof {
        lemma_pow256_16();
        lemma_pow256_mono(n as nat, 16);
    }
    while i > pos
        invariant
            pos <= i <= end <= b@.len(),
            end == pos + n,
            n <= 16,
            pow256(n as nat) <= pow256(16),
            pow256(16) == u128::MAX + 1,
            acc as nat == le_value(b@.subrange(i as int, end as int)),
        decreases i - pos,
    {
        let ghost tail = b@.subrange(i as int, end as int);
        let ghost whole = b@.subrange(i - 1, end as int);
        assert(whole.drop_first() =~= tail);
        assert(whole[0] == b@[i - 1]);
        proof {
            lemma_le_value_bound(whole);
            lemma_pow256_mono(whole.len(), n as nat);
        }
        acc = acc * 256 + b[i - 1] as u128;
        i = i - 1;
    }
    Some((acc, end))
}

/// Relies on String::from_utf8: it accepts exactly the valid UTF-8 byte
/// strings, and the string it returns has those bytes.
#[verifier::external_body]
fn string_from_utf8(b: Vec<u8>) -> (r: Option<String>)
    ensures
        match r {
            Some(s) => valid_utf8(b@) && s@ == decode_utf8(b@),
            None => !valid_utf8(b@),
        },
{
    String::from_utf8(b).ok()
}

/// Appends the layout of `s`: its UTF-8 length as four bytes, then the bytes.
pub fn push_str(out: &mut Vec<u8>, s: &String)
    requires
        str_fits(s@),
    ensures
        final(out)@ == old(out)@ + str_bytes(s@),
{
    let mut bytes = s.as_str().as_bytes_vec();
    proof {
        lemma_pow256_4();
    }
    push_uint(out, bytes.len() as u128, 4);
    out.append(&mut bytes);
    assert(final(out)@ =~= old(out)@ + str_bytes(s@));
}

/// Reads the length-prefixed UTF-8 string at `pos`.
pub fn read_str(b: &Vec<u8>, pos: usize) -> (r: Option<(String, usize)>)
    ensures
        r is Some <==> take_str(b@, pos as int) is Some,
        r matches Some((s, p)) ==> take_str(b@, pos as int) == Some((s@, p as int)),
{
    match read_uint(b, pos, 4) {
        None => None,
        Some((len, p)) => {
            if len > (b.len() - p) as u128 {
                return None;
            }
            let end: usize = p + len as usize;
            let mut bytes: Vec<u8> = Vec::new();
            let mut i: usize = p;
            while i < end
                invariant
                    p <= i <= end <= b@.len(),
                    bytes@ =~= b@.subrange(p as int, i as int),
                decreases end - i,
            {
                bytes.push(b[i]);
                i = i + 1;
            }
            match string_from_utf8(bytes) {
                Some(s) => Some((s, end)),
                None => None,
            }
        },
    }
}

/// Appends the byte of `v`.
pub fn push_bool(out: &mut Vec<u8>, v: bool)
    ensures
        final(out)@ == old(out)@ + bool_bytes(v),
{
    out.push(if v { 1u8 } else { 0u8 });
    assert(final(out)@ =~= old(out)@ + bool_bytes(v));
}

/// Reads the boolean byte at `pos`.
pub fn read_bool(b: &Vec<u8>, pos: usize) -> (r: Option<(bool, usize)>)
    ensures
        r is Some <==> take_bool(b@, pos as int) is Some,
        r matches Some((v, p)) ==> take_bool(b@, pos as int) == Some((v, p as int)),
{
    if pos < b.len() && (b[pos] == 0 || b[pos] == 1) {
        Some((b[pos] == 1, pos + 1))
    } else {
        None
    }
}

} // verus!
