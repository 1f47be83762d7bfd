//! SCALE encoding of what is gossiped, signed and kept on disk.
use parity_scale_codec::{Compact, Decode, Encode};
use vstd::arithmetic::power::{lemma_pow1, lemma_pow_adds, pow};
use vstd::prelude::*;
use vstd::string::{StrSliceExecFns, StringExecFns};

verus! {

/// The `len` low-order base-256 digits of `x`, least significant first.
pub open spec fn le_bytes(x: nat, len: nat) -> Seq<u8>
    decreases len,
{
    if len == 0 {
        Seq::empty()
    } else {
        seq![(x % 256) as u8] + le_bytes(x / 256, (len - 1) as nat)
    }
}

/// The compact form of a collection's length: one, two, four or five bytes, of
/// which the two low bits of the first tell how many.
pub open spec fn compact_bytes(n: u32) -> Seq<u8> {
    if n < 0x40 {
        le_bytes((n * 4) as nat, 1)
    } else if n < 0x4000 {
        le_bytes((n * 4 + 1) as nat, 2)
    } else if n < 0x4000_0000 {
        le_bytes((n * 4 + 2) as nat, 4)
    } else {
        seq![3u8] + le_bytes(n as nat, 4)
    }
}

/// `s` begins with `t`.
pub open spec fn begins(s: Seq<u8>, t: Seq<u8>) -> bool {
    &&& t.len() <= s.len()
    &&& s.subrange(0, t.len() as int) == t
}

/// A type with a SCALE encoding.
pub trait Codec: Sized {
    /// What an encoding stands for.
    type Value;

    /// What this value stands for.
    spec fn value(&self) -> Self::Value;

    /// No collection in `v` has more than `u32::MAX` items, so all lengths can be written.
    spec fn fits(v: Self::Value) -> bool;

    /// The encoding of `v`.
    spec fn bytes(v: Self::Value) -> Seq<u8>;

    /// The error for an input that begins with no encoding.
    spec fn error(s: Seq<u8>) -> Seq<char>;

    /// No byte sequence begins with the encodings of two different values.
    proof fn unique(s: Seq<u8>, a: Self::Value, b: Self::Value)
        requires
            Self::fits(a),
            Self::fits(b),
            begins(s, Self::bytes(a)),
            begins(s, Self::bytes(b)),
        ensures
            a == b,
    ;

    /// Appends the encoding of `self` to `out`.
    fn encode_to(&self, out: &mut Vec<u8>)
        requires
            Self::fits(self.value()),
        ensures
            final(out)@ == old(out)@ + Self::bytes(self.value()),
    ;

    /// Reads a value from `input`, starting at `at`; also gives the position behind it.
    /// Fails if and only if no encoding starts there.
    fn decode_at(input: &[u8], at: usize) -> (r: Result<(Self, usize), String>)
        requires
            at <= input@.len(),
        ensures
            match r {
                Ok((v, end)) => {
                    &&& at <= end <= input@.len()
                    &&& Self::fits(v.value())
                    &&& input@.subrange(at as int, end as int) == Self::bytes(v.value())
                },
                Err(e) => {
                    &&& e@ == Self::error(input@.subrange(at as int, input@.len() as int))
                    &&& forall|v: Self::Value|
                        Self::fits(v) ==> !begins(
                            input@.subrange(at as int, input@.len() as int),
                            #[trigger] Self::bytes(v),
                        )
                },
            },
    ;
}

/// `s` begins with an encoding.
pub open spec fn reads<T: Codec>(s: Seq<u8>) -> bool {
    exists|v: T::Value| T::fits(v) && begins(s, #[trigger] T::bytes(v))
}

/// What stands behind the encoding that `s` begins with.
pub open spec fn behind<T: Codec>(s: Seq<u8>) -> Seq<u8> {
    let v = choose|v: T::Value| T::fits(v) && begins(s, #[trigger] T::bytes(v));
    s.subrange(T::bytes(v).len() as int, s.len() as int)
}

pub(crate) proof fn lemma_reads<T: Codec>(s: Seq<u8>, v: T::Value)
    requires
        T::fits(v),
        begins(s, T::bytes(v)),
    ensures
        reads::<T>(s),
        behind::<T>(s) == s.subrange(T::bytes(v).len() as int, s.len() as int),
{
    let w = choose|w: T::Value| T::fits(w) && begins(s, #[trigger] T::bytes(w));
    T::unique(s, v, w);
}

/// The text with a tab before each line.
pub open spec fn tabbed(text: Seq<char>) -> Seq<char>
    decreases text.len(),
{
    if text.len() == 0 {
        Seq::empty()
    } else {
        let front = text.drop_last();
        let start = front.len() == 0 || front.last() == '\n';
        tabbed(front) + (if start {
            seq!['\t']
        } else {
            Seq::empty()
        }) + seq![text.last()]
    }
}

/// The error for something of which a part could not be read: what it is, and below it, further
/// in, the error for the part.
pub open spec fn chained(what: Seq<char>, error: Seq<char>) -> Seq<char> {
    what + seq![':', '\n'] + tabbed(error) + (if error.len() > 0 && error.last() == '\n' {
        Seq::empty()
    } else {
        seq!['\n']
    })
}

/// The error for something of which a part could not be read.
pub(crate) fn chain(what: &str, error: String) -> (r: String)
    ensures
        r@ == chained(what@, error@),
{
    proof {
        reveal_strlit(":\n");
        reveal_strlit("\t");
        reveal_strlit("\n");
    }
    let text: &str = error.as_str();
    let mut r = String::new();
    r.append(what);
    r.append(":\n");
    let ghost head = what@ + seq![':', '\n'];
    let n: usize = text.unicode_len();
    let mut start: bool = true;
    assert(text@.take(0) =~= Seq::empty());
    assert(r@ =~= head + tabbed(text@.take(0)));
    for i in 0..n
        invariant
            n == text@.len(),
            "\t"@ == seq!['\t'],
            start == (i == 0 || text@[i - 1] == '\n'),
            r@ == head + tabbed(text@.take(i as int)),
    {
        let ghost before = r@;
        if start {
            r.append("\t");
        }
        r.append(text.substring_char(i, i + 1));
        start = text.get_char(i) == '\n';
        proof {
            let t = text@.take(i + 1);
            assert(t.drop_last() =~= text@.take(i as int));
            assert(text@.subrange(i as int, i + 1) =~= seq![text@[i as int]]);
            assert(r@ =~= head + tabbed(t));
        }
    }
    assert(text@.take(n as int) =~= text@);
    if !start || n == 0 {
        r.append("\n");
    }
    assert(r@ =~= chained(what@, error@));
    r
}

/// The error for an input that ends too early.
pub const TOO_SHORT: &'static str = "Not enough data to fill buffer";

pub(crate) fn too_short() -> (r: String)
    ensures
        r@ == TOO_SHORT@,
{
    TOO_SHORT.to_string()
}

/// The error for a first byte that stands for no variant of the named type.
pub open spec fn unknown(name: Seq<char>) -> Seq<char> {
    "Could not decode `"@ + name + "`, variant doesn't exist"@
}

/// The error for a missing first byte of the named type.
pub open spec fn no_variant(name: Seq<char>) -> Seq<char> {
    chained("Could not decode `"@ + name + "`, failed to read variant byte"@, TOO_SHORT@)
}

pub(crate) fn unknown_variant(name: &str) -> (r: String)
    ensures
        r@ == unknown(name@),
{
    let mut text = "Could not decode `".to_string();
    text.append(name);
    text.append("`, variant doesn't exist");
    text
}

pub(crate) fn no_variant_byte(name: &str) -> (r: String)
    ensures
        r@ == no_variant(name@),
{
    let mut text = "Could not decode `".to_string();
    text.append(name);
    text.append("`, failed to read variant byte");
    chain(text.as_str(), too_short())
}

/// The error for a compact form that is out of range, or longer than the number needs.
pub const OUT_OF_RANGE: &'static str = "out of range decoding Compact<u32>";

/// The error for an input that begins with no compact form: the form is cut off, or it is out of
/// range or longer than the number needs.
pub open spec fn compact_error(s: Seq<u8>) -> Seq<char> {
    let cut = s.len() == 0 || (s[0] % 4 == 1 && s.len() < 2) || (s[0] % 4 == 2 && s.len() < 4) || (
    s[0] == 3 && s.len() < 5);
    if cut {
        TOO_SHORT@
    } else {
        OUT_OF_RANGE@
    }
}

/// `u64::encode` of `parity_scale_codec`: the eight bytes of `x`, low byte first.
#[verifier::external_body]
fn scale_encode_u64(x: u64) -> (r: Vec<u8>)
    ensures
        r@ == le_bytes(x as nat, 8),
{
    x.encode()
}

/// `u64::decode` of `parity_scale_codec`: reads eight bytes, low byte first, from the
/// front of `input`, and fails only if there are fewer. The error is handed on as its text.
#[verifier::external_body]
fn scale_decode_u64(input: &[u8]) -> (r: Result<u64, String>)
    ensures
        r is Ok <==> input@.len() >= 8,
        r matches Ok(x) ==> input@.subrange(0, 8) == le_bytes(x as nat, 8),
        r matches Err(e) ==> e@ == TOO_SHORT@,
{
    let mut rest: &[u8] = input;
    u64::decode(&mut rest).map_err(|e| e.to_string())
}

/// `u32::decode` of `parity_scale_codec`: reads four bytes, low byte first, from the front of
/// `input`, and fails only if there are fewer. The error is handed on as its text.
#[verifier::external_body]
fn scale_decode_u32(input: &[u8]) -> (r: Result<u32, String>)
    ensures
        r is Ok <==> input@.len() >= 4,
        r matches Ok(x) ==> input@.subrange(0, 4) == le_bytes(x as nat, 4),
        r matches Err(e) ==> e@ == TOO_SHORT@,
{
    let mut rest: &[u8] = input;
    u32::decode(&mut rest).map_err(|e| e.to_string())
}

/// The number that the four bytes at the front of `input` spell. Fails if and only if there are
/// fewer.
pub fn decode_u32(input: &[u8]) -> (r: Result<u32, String>)
    ensures
        r is Ok <==> input@.len() >= 4,
        r matches Ok(x) ==> begins(input@, le_bytes(x as nat, 4)),
        r matches Err(e) ==> e@ == TOO_SHORT@,
{
    let found = scale_decode_u32(input);
    proof {
        if let Ok(x) = found {
            lemma_le_len(x as nat, 4);
        }
    }
    found
}

proof fn lemma_le_len(x: nat, len: nat)
    ensures
        le_bytes(x, len).len() == len,
    decreases len,
{
    if len > 0 {
        lemma_le_len(x / 256, (len - 1) as nat);
    }
}

/// Digits determine a number that they are enough for.
pub proof fn lemma_le_injective(x: nat, y: nat, len: nat)
    requires
        x < pow(256, len),
        y < pow(256, len),
        le_bytes(x, len) == le_bytes(y, len),
    ensures
        x == y,
    decreases len,
{
    if len == 0 {
        assert(pow(256, 0) == 1) by {
            vstd::arithmetic::power::lemma_pow0(256);
        }
    } else {
        let l = (len - 1) as nat;
        lemma_pow_adds(256, 1, l);
        lemma_pow1(256);
        assert(pow(256, len) == 256 * pow(256, l));
        let (sx, sy) = (le_bytes(x, len), le_bytes(y, len));
        assert(sx[0] == (x % 256) as u8 && sy[0] == (y % 256) as u8);
        assert(x % 256 == y % 256);
        assert(sx.subrange(1, len as int) =~= le_bytes(x / 256, l)) by {
            lemma_le_len(x / 256, l);
        }
        assert(sy.subrange(1, len as int) =~= le_bytes(y / 256, l)) by {
            lemma_le_len(y / 256, l);
        }
        assert(x / 256 < pow(256, l)) by (nonlinear_arith)
            requires
                x < 256 * pow(256, l),
        ;
        assert(y / 256 < pow(256, l)) by (nonlinear_arith)
            requires
                y < 256 * pow(256, l),
        ;
        lemma_le_injective(x / 256, y / 256, l);
    }
}

impl Codec for u64 {
    type Value = u64;

    open spec fn value(&self) -> u64 {
        *self
    }

    open spec fn fits(v: u64) -> bool {
        true
    }

    open spec fn bytes(v: u64) -> Seq<u8> {
        le_bytes(v as nat, 8)
    }

    open spec fn error(s: Seq<u8>) -> Seq<char> {
        TOO_SHORT@
    }

    proof fn unique(s: Seq<u8>, a: u64, b: u64) {
        lemma_le_len(a as nat, 8);
        lemma_le_len(b as nat, 8);
        lemma_pow256();
        lemma_le_injective(a as nat, b as nat, 8);
    }

    fn encode_to(&self, out: &mut Vec<u8>) {
        let mut b = scale_encode_u64(*self);
        out.append(&mut b);
    }

    fn decode_at(input: &[u8], at: usize) -> (r: Result<(Self, usize), String>) {
        let rest = vstd::slice::slice_subrange(input, at, input.len());
        proof {
            assert forall|v: u64| (#[trigger] Self::bytes(v)).len() == 8 by {
                lemma_le_len(v as nat, 8);
            }
        }
        match scale_decode_u64(rest) {
            Ok(x) => {
                assert(rest@.subrange(0, 8) =~= input@.subrange(at as int, at + 8));
                Ok((x, at + 8))
            },
            Err(e) => Err(e),
        }
    }
}

/// `Compact::<u32>::encode` of `parity_scale_codec`: the shortest of the four compact forms
/// that holds `n`.
#[verifier::external_body]
fn scale_encode_compact(n: u32) -> (r: Vec<u8>)
    ensures
        r@ == compact_bytes(n),
{
    Compact(n).encode()
}

/// `Compact::<u32>::decode` of `parity_scale_codec`: the number whose compact form stands at
/// the front of `input`. A form longer than the number needs is refused. The error is handed on
/// as its text.
#[verifier::external_body]
fn scale_decode_compact(input: &[u8]) -> (r: Result<u32, String>)
    ensures
        match r {
            Ok(n) => begins(input@, compact_bytes(n)),
            Err(e) => e@ == compact_error(input@) && forall|n: u32|
                !begins(input@, #[trigger] compact_bytes(n)),
        },
{
    let mut rest: &[u8] = input;
    Compact::<u32>::decode(&mut rest).map(|n| n.0).map_err(|e| e.to_string())
}

/// How many bytes the compact form of `n` takes.
pub open spec fn compact_len(n: u32) -> nat {
    if n < 0x40 {
        1
    } else if n < 0x4000 {
        2
    } else if n < 0x4000_0000 {
        4
    } else {
        5
    }
}

proof fn lemma_pow256()
    ensures
        pow(256, 1) == 0x100,
        pow(256, 2) == 0x1_0000,
        pow(256, 4) == 0x1_0000_0000,
        pow(256, 8) == 0x1_0000_0000_0000_0000,
{
    reveal(pow);
    reveal_with_fuel(pow, 9);
}

proof fn lemma_compact_len(n: u32)
    ensures
        compact_bytes(n).len() == compact_len(n),
        n < 0x4000_0000 ==> compact_bytes(n)[0] % 4 == (if n < 0x40 {
            0int
        } else if n < 0x4000 {
            1
        } else {
            2
        }),
        n >= 0x4000_0000 ==> compact_bytes(n)[0] == 3,
{
    lemma_le_len((n * 4) as nat, 1);
    lemma_le_len((n * 4 + 1) as nat, 2);
    lemma_le_len((n * 4 + 2) as nat, 4);
    lemma_le_len(n as nat, 4);
    assert(le_bytes((n * 4) as nat, 1)[0] == (n * 4) % 256);
    assert(le_bytes((n * 4 + 1) as nat, 2)[0] == (n * 4 + 1) % 256);
    assert(le_bytes((n * 4 + 2) as nat, 4)[0] == (n * 4 + 2) % 256);
}

/// No byte sequence begins with the compact forms of two different numbers.
pub proof fn lemma_compact_unique(s: Seq<u8>, a: u32, b: u32)
    requires
        begins(s, compact_bytes(a)),
        begins(s, compact_bytes(b)),
    ensures
        a == b,
{
    lemma_compact_len(a);
    lemma_compact_len(b);
    lemma_pow256();
    let (ca, cb) = (compact_bytes(a), compact_bytes(b));
    assert(s[0] == ca[0] && s[0] == cb[0]) by {
        assert(s.subrange(0, ca.len() as int)[0] == s[0]);
        assert(s.subrange(0, cb.len() as int)[0] == s[0]);
    }
    assert(ca == cb);
    if a < 0x40 {
        lemma_le_injective((a * 4) as nat, (b * 4) as nat, 1);
    } else if a < 0x4000 {
        lemma_le_injective((a * 4 + 1) as nat, (b * 4 + 1) as nat, 2);
    } else if a < 0x4000_0000 {
        lemma_le_injective((a * 4 + 2) as nat, (b * 4 + 2) as nat, 4);
    } else {
        lemma_le_len(a as nat, 4);
        lemma_le_len(b as nat, 4);
        assert(ca.subrange(1, 5) =~= le_bytes(a as nat, 4));
        assert(cb.subrange(1, 5) =~= le_bytes(b as nat, 4));
        lemma_le_injective(a as nat, b as nat, 4);
    }
}

/// Reads a collection's length.
fn decode_len_at(input: &[u8], at: usize) -> (r: Result<(u32, usize), String>)
    requires
        at <= input@.len(),
    ensures
        match r {
            Ok((n, end)) => {
                &&& at <= end <= input@.len()
                &&& input@.subrange(at as int, end as int) == compact_bytes(n)
            },
            Err(e) => {
                &&& e@ == compact_error(input@.subrange(at as int, input@.len() as int))
                &&& forall|n: u32|
                    !begins(
                        input@.subrange(at as int, input@.len() as int),
                        #[trigger] compact_bytes(n),
                    )
            },
        },
{
    let rest = vstd::slice::slice_subrange(input, at, input.len());
    match scale_decode_compact(rest) {
        Ok(n) => {
            proof {
                lemma_compact_len(n);
            }
            let k: usize = if n < 0x40 {
                1
            } else if n < 0x4000 {
                2
            } else if n < 0x4000_0000 {
                4
            } else {
                5
            };
            assert(rest@.subrange(0, k as int) =~= input@.subrange(at as int, at + k));
            Ok((n, at + k))
        },
        Err(e) => Err(e),
    }
}

pub(crate) proof fn lemma_begins_concat(s: Seq<u8>, x: Seq<u8>, y: Seq<u8>)
    ensures
        begins(s, x + y) <==> begins(s, x) && begins(
            s.subrange(x.len() as int, s.len() as int),
            y,
        ),
{
    let n = x.len() as int;
    if begins(s, x + y) {
        assert((x + y).subrange(0, n) =~= x);
        assert((x + y).subrange(n, n + y.len()) =~= y);
        assert(s.subrange(0, n) =~= s.subrange(0, n + y.len()).subrange(0, n));
        assert(s.subrange(n, s.len() as int).subrange(0, y.len() as int) =~= s.subrange(
            0,
            n + y.len(),
        ).subrange(n, n + y.len()));
    }
    if begins(s, x) && begins(s.subrange(n, s.len() as int), y) {
        let t = s.subrange(n, s.len() as int);
        assert(s.subrange(0, n + y.len()) =~= s.subrange(0, n) + t.subrange(0, y.len() as int));
    }
}

/// The `N` bytes of `input` that start at `at`.
pub(crate) fn array_at<const N: usize>(input: &[u8], at: usize) -> (r: [u8; N])
    requires
        at + N <= input@.len() <= usize::MAX,
    ensures
        r@ == input@.subrange(at as int, at + N),
{
    let mut a: [u8; N] = [0u8; N];
    for i in 0..N
        invariant
            at + N <= input@.len() <= usize::MAX,
            forall|j: int| 0 <= j < i ==> a@[j] == input@[at + j],
    {
        a[i] = input[at + i];
    }
    assert(a@ =~= input@.subrange(at as int, at + N));
    a
}

/// An array of bytes is written as it is.
impl<const N: usize> Codec for [u8; N] {
    type Value = [u8; N];

    open spec fn value(&self) -> [u8; N] {
        *self
    }

    open spec fn fits(v: [u8; N]) -> bool {
        true
    }

    open spec fn bytes(v: [u8; N]) -> Seq<u8> {
        v@
    }

    open spec fn error(s: Seq<u8>) -> Seq<char> {
        TOO_SHORT@
    }

    proof fn unique(s: Seq<u8>, a: [u8; N], b: [u8; N]) {
        assert(a@ == b@);
        assert(a =~= b) by {
            assert forall|i: int| 0 <= i < N implies a[i] == b[i] by {
                assert(a@[i] == b@[i]);
            }
        }
    }

    fn encode_to(&self, out: &mut Vec<u8>) {
        let ghost before = out@;
        for i in 0..N
            invariant
                out@ == before + self@.subrange(0, i as int),
        {
            out.push(self[i]);
            assert(self@.subrange(0, i + 1) =~= self@.subrange(0, i as int).push(self@[i as int]));
        }
        assert(self@.subrange(0, N as int) =~= self@);
    }

    fn decode_at(input: &[u8], at: usize) -> (r: Result<(Self, usize), String>) {
        if input.len() - at < N {
            return Err(too_short());
        }
        Ok((array_at::<N>(input, at), at + N))
    }
}

/// One byte, zero or one.
impl Codec for bool {
    type Value = bool;

    open spec fn value(&self) -> bool {
        *self
    }

    open spec fn fits(v: bool) -> bool {
        true
    }

    open spec fn bytes(v: bool) -> Seq<u8> {
        seq![
            if v {
                1u8
            } else {
                0u8
            },
        ]
    }

    open spec fn error(s: Seq<u8>) -> Seq<char> {
        if s.len() == 0 {
            TOO_SHORT@
        } else {
            "Invalid boolean representation"@
        }
    }

    proof fn unique(s: Seq<u8>, a: bool, b: bool) {
        assert(s.subrange(0, 1)[0] == Self::bytes(a)[0]);
        assert(s.subrange(0, 1)[0] == Self::bytes(b)[0]);
    }

    fn encode_to(&self, out: &mut Vec<u8>) {
        out.push(
            if *self {
                1u8
            } else {
                0u8
            },
        );
    }

    fn decode_at(input: &[u8], at: usize) -> (r: Result<(Self, usize), String>) {
        let ghost rest = input@.subrange(at as int, input@.len() as int);
        proof {
            assert forall|v: bool| begins(rest, #[trigger] Self::bytes(v)) implies input@.len() > at
                && input@[at as int] == Self::bytes(v)[0] by {
                assert(rest.subrange(0, 1)[0] == rest[0]);
            }
        }
        if at >= input.len() {
            return Err(too_short());
        }
        let tag: u8 = input[at];
        assert(input@.subrange(at as int, at + 1) =~= seq![tag]);
        if tag == 0 {
            Ok((false, at + 1))
        } else if tag == 1 {
            Ok((true, at + 1))
        } else {
            Err("Invalid boolean representation".to_string())
        }
    }
}

/// One value behind the other.
impl<A: Codec, B: Codec> Codec for (A, B) {
    type Value = (A::Value, B::Value);

    open spec fn value(&self) -> (A::Value, B::Value) {
        (self.0.value(), self.1.value())
    }

    open spec fn fits(v: (A::Value, B::Value)) -> bool {
        A::fits(v.0) && B::fits(v.1)
    }

    open spec fn bytes(v: (A::Value, B::Value)) -> Seq<u8> {
        A::bytes(v.0) + B::bytes(v.1)
    }

    open spec fn error(s: Seq<u8>) -> Seq<char> {
        if reads::<A>(s) {
            B::error(behind::<A>(s))
        } else {
            A::error(s)
        }
    }

    proof fn unique(s: Seq<u8>, a: (A::Value, B::Value), b: (A::Value, B::Value)) {
        lemma_begins_concat(s, A::bytes(a.0), B::bytes(a.1));
        lemma_begins_concat(s, A::bytes(b.0), B::bytes(b.1));
        A::unique(s, a.0, b.0);
        B::unique(s.subrange(A::bytes(a.0).len() as int, s.len() as int), a.1, b.1);
    }

    fn encode_to(&self, out: &mut Vec<u8>) {
        let ghost before = out@;
        self.0.encode_to(out);
        self.1.encode_to(out);
        assert(out@ =~= before + (A::bytes(self.0.value()) + B::bytes(self.1.value())));
    }

    fn decode_at(input: &[u8], at: usize) -> (r: Result<(Self, usize), String>) {
        let ghost rest = input@.subrange(at as int, input@.len() as int);
        proof {
            assert forall|v: Self::Value| begins(rest, #[trigger] Self::bytes(v)) implies begins(
                rest,
                A::bytes(v.0),
            ) && begins(
                rest.subrange(A::bytes(v.0).len() as int, rest.len() as int),
                B::bytes(v.1),
            ) by {
                lemma_begins_concat(rest, A::bytes(v.0), B::bytes(v.1));
            }
        }
        let (a, mid) = match A::decode_at(input, at) {
            Ok(x) => x,
            Err(e) => {
                return Err(e);
            },
        };
        proof {
            let ab = A::bytes(a.value());
            assert(rest.subrange(0, ab.len() as int) =~= input@.subrange(at as int, mid as int));
            assert(rest.subrange(ab.len() as int, rest.len() as int) =~= input@.subrange(
                mid as int,
                input@.len() as int,
            ));
            lemma_reads::<A>(rest, a.value());
            assert forall|v: Self::Value|
                Self::fits(v) && begins(rest, #[trigger] Self::bytes(v)) implies v.0
                == a.value() by {
                A::unique(rest, v.0, a.value());
            }
        }
        match B::decode_at(input, mid) {
            Ok((b, end)) => {
                assert(input@.subrange(at as int, end as int) =~= input@.subrange(
                    at as int,
                    mid as int,
                ) + input@.subrange(mid as int, end as int));
                Ok(((a, b), end))
            },
            Err(e) => Err(e),
        }
    }
}

/// A zero byte for `None`, a one and the value for `Some`.
impl<T: Codec> Codec for Option<T> {
    type Value = Option<T::Value>;

    open spec fn value(&self) -> Option<T::Value> {
        match self {
            Some(x) => Some(x.value()),
            None => None,
        }
    }

    open spec fn fits(v: Option<T::Value>) -> bool {
        v matches Some(x) ==> T::fits(x)
    }

    open spec fn bytes(v: Option<T::Value>) -> Seq<u8> {
        match v {
            Some(x) => seq![1u8] + T::bytes(x),
            None => seq![0u8],
        }
    }

    open spec fn error(s: Seq<u8>) -> Seq<char> {
        if s.len() == 0 {
            chained("Could not decode variant byte for `Option`"@, TOO_SHORT@)
        } else if s[0] == 1 {
            chained(
                "Could not decode `Option::Some(T)`"@,
                T::error(s.subrange(1, s.len() as int)),
            )
        } else {
            "unexpected first byte decoding Option"@
        }
    }

    proof fn unique(s: Seq<u8>, a: Option<T::Value>, b: Option<T::Value>) {
        let (ba, bb) = (Self::bytes(a), Self::bytes(b));
        assert(s.subrange(0, ba.len() as int)[0] == s[0]);
        assert(s.subrange(0, bb.len() as int)[0] == s[0]);
        if let (Some(x), Some(y)) = (a, b) {
            lemma_begins_concat(s, seq![1u8], T::bytes(x));
            lemma_begins_concat(s, seq![1u8], T::bytes(y));
            T::unique(s.subrange(1, s.len() as int), x, y);
        }
    }

    fn encode_to(&self, out: &mut Vec<u8>) {
        let ghost before = out@;
        match self {
            Some(x) => {
                out.push(1);
                x.encode_to(out);
                assert(out@ =~= before + (seq![1u8] + T::bytes(x.value())));
            },
            None => {
                out.push(0);
            },
        }
    }

    fn decode_at(input: &[u8], at: usize) -> (r: Result<(Self, usize), String>) {
        let ghost rest = input@.subrange(at as int, input@.len() as int);
        proof {
            assert forall|v: Self::Value|
                begins(rest, #[trigger] Self::bytes(v)) implies input@.len() > at
                && input@[at as int] == Self::bytes(v)[0] && (v matches Some(x) ==> begins(
                input@.subrange(at + 1, input@.len() as int),
                T::bytes(x),
            )) by {
                assert(rest.subrange(0, Self::bytes(v).len() as int)[0] == rest[0]);
                if let Some(x) = v {
                    lemma_begins_concat(rest, seq![1u8], T::bytes(x));
                    assert(rest.subrange(1, rest.len() as int) =~= input@.subrange(
                        at + 1,
                        input@.len() as int,
                    ));
                }
            }
        }
        if at >= input.len() {
            return Err(chain("Could not decode variant byte for `Option`", too_short()));
        }
        let tag: u8 = input[at];
        assert(input@.subrange(at as int, at + 1) =~= seq![tag]);
        assert(rest.subrange(1, rest.len() as int) =~= input@.subrange(
            at + 1,
            input@.len() as int,
        ));
        if tag == 0 {
            Ok((None, at + 1))
        } else if tag == 1 {
            match T::decode_at(input, at + 1) {
                Ok((x, end)) => {
                    assert(input@.subrange(at as int, end as int) =~= seq![tag] + input@.subrange(
                        at + 1,
                        end as int,
                    ));
                    Ok((Some(x), end))
                },
                Err(e) => Err(chain("Could not decode `Option::Some(T)`", e)),
            }
        } else {
            Err("unexpected first byte decoding Option".to_string())
        }
    }
}

/// The encodings of the items, one behind the other.
pub open spec fn items_bytes<T: Codec>(items: Seq<T::Value>) -> Seq<u8>
    decreases items.len(),
{
    if items.len() == 0 {
        Seq::empty()
    } else {
        T::bytes(items.first()) + items_bytes::<T>(items.drop_first())
    }
}

/// The error for an input that does not begin with the encodings of `n` items: that of the first
/// item that is missing.
pub open spec fn items_error<T: Codec>(n: nat, s: Seq<u8>) -> Seq<char>
    decreases n,
{
    if n > 0 && reads::<T>(s) {
        items_error::<T>((n - 1) as nat, behind::<T>(s))
    } else {
        T::error(s)
    }
}

/// Every item can be written.
pub open spec fn items_fit<T: Codec>(items: Seq<T::Value>) -> bool {
    forall|i: int| 0 <= i < items.len() ==> T::fits(#[trigger] items[i])
}

proof fn lemma_items_push<T: Codec>(items: Seq<T::Value>, x: T::Value)
    ensures
        items_bytes::<T>(items.push(x)) == items_bytes::<T>(items) + T::bytes(x),
    decreases items.len(),
{
    reveal_with_fuel(items_bytes, 2);
    if items.len() == 0 {
        assert(items.push(x).drop_first() =~= items);
        assert(items_bytes::<T>(items.push(x)) =~= T::bytes(x));
    } else {
        lemma_items_push::<T>(items.drop_first(), x);
        assert(items.push(x).drop_first() =~= items.drop_first().push(x));
        assert(items_bytes::<T>(items.push(x)) =~= items_bytes::<T>(items) + T::bytes(x));
    }
}

/// Where two runs of items both stand at the front of `s`, the shorter begins the longer,
/// and what follows it there begins with the next item.
proof fn lemma_items_prefix<T: Codec>(s: Seq<u8>, a: Seq<T::Value>, b: Seq<T::Value>)
    requires
        items_fit::<T>(a),
        items_fit::<T>(b),
        a.len() <= b.len(),
        begins(s, items_bytes::<T>(a)),
        begins(s, items_bytes::<T>(b)),
    ensures
        b.take(a.len() as int) == a,
        a.len() < b.len() ==> begins(
            s.subrange(items_bytes::<T>(a).len() as int, s.len() as int),
            T::bytes(b[a.len() as int]),
        ),
    decreases a.len(),
{
    reveal_with_fuel(items_bytes, 2);
    if b.len() > 0 {
        lemma_begins_concat(s, T::bytes(b.first()), items_bytes::<T>(b.drop_first()));
    }
    if a.len() == 0 {
        assert(b.take(0) =~= a);
        assert(s.subrange(0, s.len() as int) =~= s);
    } else {
        lemma_begins_concat(s, T::bytes(a.first()), items_bytes::<T>(a.drop_first()));
        assert(a.first() == a[0] && b.first() == b[0]);
        T::unique(s, a.first(), b.first());
        let n = T::bytes(a.first()).len() as int;
        let t = s.subrange(n, s.len() as int);
        assert(items_fit::<T>(a.drop_first())) by {
            assert forall|i: int| 0 <= i < a.drop_first().len() implies T::fits(
                #[trigger] a.drop_first()[i],
            ) by {
                assert(a.drop_first()[i] == a[i + 1]);
            }
        }
        assert(items_fit::<T>(b.drop_first())) by {
            assert forall|i: int| 0 <= i < b.drop_first().len() implies T::fits(
                #[trigger] b.drop_first()[i],
            ) by {
                assert(b.drop_first()[i] == b[i + 1]);
            }
        }
        lemma_items_prefix::<T>(t, a.drop_first(), b.drop_first());
        assert forall|i: int| 0 <= i < a.len() implies b[i] == a[i] by {
            if i > 0 {
                assert(b.drop_first().take(a.len() - 1)[i - 1] == a.drop_first()[i - 1]);
            }
        }
        assert(b.take(a.len() as int) =~= a);
        if a.len() < b.len() {
            let m = items_bytes::<T>(a.drop_first()).len() as int;
            assert(t.subrange(m, t.len() as int) =~= s.subrange(n + m, s.len() as int));
            assert(b.drop_first()[a.len() - 1] == b[a.len() as int]);
        }
    }
}

/// The compact number of items, and the items.
impl<T: Codec> Codec for Vec<T> {
    type Value = Seq<T::Value>;

    open spec fn value(&self) -> Seq<T::Value> {
        self@.map_values(|x: T| x.value())
    }

    open spec fn fits(v: Seq<T::Value>) -> bool {
        v.len() <= u32::MAX && items_fit::<T>(v)
    }

    open spec fn bytes(v: Seq<T::Value>) -> Seq<u8> {
        compact_bytes(v.len() as u32) + items_bytes::<T>(v)
    }

    open spec fn error(s: Seq<u8>) -> Seq<char> {
        if exists|n: u32| begins(s, #[trigger] compact_bytes(n)) {
            let n = choose|n: u32| begins(s, #[trigger] compact_bytes(n));
            let tail = s.subrange(compact_bytes(n).len() as int, s.len() as int);
            items_error::<T>(n as nat, tail)
        } else {
            compact_error(s)
        }
    }

    proof fn unique(s: Seq<u8>, a: Seq<T::Value>, b: Seq<T::Value>) {
        lemma_begins_concat(s, compact_bytes(a.len() as u32), items_bytes::<T>(a));
        lemma_begins_concat(s, compact_bytes(b.len() as u32), items_bytes::<T>(b));
        lemma_compact_unique(s, a.len() as u32, b.len() as u32);
        let t = s.subrange(compact_bytes(a.len() as u32).len() as int, s.len() as int);
        lemma_items_prefix::<T>(t, a, b);
        assert(b.take(a.len() as int) =~= b);
    }

    fn encode_to(&self, out: &mut Vec<u8>) {
        let ghost before = out@;
        let ghost v = self.value();
        let mut head = scale_encode_compact(self.len() as u32);
        out.append(&mut head);
        let ghost start = out@;
        assert(v.take(0) =~= Seq::empty());
        assert(out@ =~= start + items_bytes::<T>(v.take(0)));
        for i in 0..self.len()
            invariant
                v == self.value(),
                Self::fits(v),
                out@ == start + items_bytes::<T>(v.take(i as int)),
        {
            assert(v[i as int] == self@[i as int].value());
            self[i].encode_to(out);
            proof {
                lemma_items_push::<T>(v.take(i as int), v[i as int]);
                assert(v.take(i + 1) =~= v.take(i as int).push(v[i as int]));
                assert(out@ =~= start + items_bytes::<T>(v.take(i + 1)));
            }
        }
        assert(v.take(v.len() as int) =~= v);
        assert(out@ =~= before + Self::bytes(v));
    }

    fn decode_at(input: &[u8], at: usize) -> (r: Result<(Self, usize), String>) {
        let ghost rest = input@.subrange(at as int, input@.len() as int);
        proof {
            assert forall|v: Seq<T::Value>| begins(rest, #[trigger] Self::bytes(v)) implies begins(
                rest,
                compact_bytes(v.len() as u32),
            ) && begins(
                rest.subrange(compact_bytes(v.len() as u32).len() as int, rest.len() as int),
                items_bytes::<T>(v),
            ) by {
                lemma_begins_concat(rest, compact_bytes(v.len() as u32), items_bytes::<T>(v));
            }
        }
        let (n, start) = match decode_len_at(input, at) {
            Ok(x) => x,
            Err(e) => {
                return Err(e);
            },
        };
        let ghost tail = input@.subrange(start as int, input@.len() as int);
        proof {
            let k = compact_bytes(n).len() as int;
            assert(rest.subrange(0, k) =~= input@.subrange(at as int, start as int));
            assert(rest.subrange(k, rest.len() as int) =~= tail);
            assert forall|v: Seq<T::Value>|
                Self::fits(v) && begins(rest, #[trigger] Self::bytes(v)) implies v.len() == n
                && begins(tail, items_bytes::<T>(v)) by {
                lemma_compact_unique(rest, v.len() as u32, n);
            }
            let m = choose|m: u32| begins(rest, #[trigger] compact_bytes(m));
            lemma_compact_unique(rest, m, n);
        }
        let mut items: Vec<T> = Vec::new();
        let mut pos: usize = start;
        let mut i: u32 = 0;
        assert(items.value() =~= Seq::empty());
        assert(input@.subrange(start as int, pos as int) =~= items_bytes::<T>(items.value()));
        while i < n
            invariant
                i <= n,
                items@.len() == i,
                at <= start <= pos <= input@.len(),
                rest == input@.subrange(at as int, input@.len() as int),
                tail == input@.subrange(start as int, input@.len() as int),
                items_fit::<T>(items.value()),
                input@.subrange(start as int, pos as int) == items_bytes::<T>(items.value()),
                Self::error(rest) == items_error::<T>(
                    (n - i) as nat,
                    input@.subrange(pos as int, input@.len() as int),
                ),
                forall|v: Seq<T::Value>|
                    Self::fits(v) && begins(rest, #[trigger] Self::bytes(v)) ==> v.len() == n
                        && begins(tail, items_bytes::<T>(v)),
            decreases n - i,
        {
            let ghost got = items.value();
            proof {
                let m = items_bytes::<T>(got).len() as int;
                assert(tail.subrange(0, m) =~= input@.subrange(start as int, pos as int));
                assert(tail.subrange(m, tail.len() as int) =~= input@.subrange(
                    pos as int,
                    input@.len() as int,
                ));
            }
            match T::decode_at(input, pos) {
                Ok((x, end)) => {
                    proof {
                        let next = input@.subrange(pos as int, input@.len() as int);
                        let b = T::bytes(x.value());
                        assert(next.subrange(0, b.len() as int) =~= input@.subrange(
                            pos as int,
                            end as int,
                        ));
                        lemma_reads::<T>(next, x.value());
                        assert(next.subrange(b.len() as int, next.len() as int) =~= input@.subrange(
                            end as int,
                            input@.len() as int,
                        ));
                        lemma_items_push::<T>(got, x.value());
                        assert(input@.subrange(start as int, end as int) =~= input@.subrange(
                            start as int,
                            pos as int,
                        ) + input@.subrange(pos as int, end as int));
                    }
                    items.push(x);
                    pos = end;
                    i = i + 1;
                    proof {
                        assert(items.value() =~= got.push(x.value()));
                        assert forall|j: int| 0 <= j < items.value().len() implies T::fits(
                            #[trigger] items.value()[j],
                        ) by {
                            if j < got.len() {
                                assert(items.value()[j] == got[j]);
                            }
                        }
                    }
                },
                Err(e) => {
                    proof {
                        assert forall|v: Seq<T::Value>| Self::fits(v) implies !begins(
                            rest,
                            #[trigger] Self::bytes(v),
                        ) by {
                            if begins(rest, Self::bytes(v)) {
                                lemma_items_prefix::<T>(tail, got, v);
                                assert(T::fits(v[i as int]));
                            }
                        }
                    }
                    return Err(e);
                },
            }
        }
        assert(input@.subrange(at as int, pos as int) =~= input@.subrange(at as int, start as int)
            + input@.subrange(start as int, pos as int));
        Ok((items, pos))
    }
}

/// No byte sequence begins with the four bytes of two different numbers.
pub(crate) proof fn lemma_u32_unique(a: u32, b: u32)
    ensures
        forall|s: Seq<u8>| #[trigger]
            begins(s, le_bytes(a as nat, 4)) && begins(s, le_bytes(b as nat, 4)) ==> a == b,
{
    lemma_pow256();
    lemma_le_len(a as nat, 4);
    lemma_le_len(b as nat, 4);
    assert forall|s: Seq<u8>| #[trigger]
        begins(s, le_bytes(a as nat, 4)) && begins(s, le_bytes(b as nat, 4)) implies a == b by {
        lemma_le_injective(a as nat, b as nat, 4);
    }
}

/// The encoding of `x`.
pub fn encode<T: Codec>(x: &T) -> (r: Vec<u8>)
    requires
        T::fits(x.value()),
    ensures
        r@ == T::bytes(x.value()),
{
    let mut out: Vec<u8> = Vec::new();
    x.encode_to(&mut out);
    assert(out@ =~= T::bytes(x.value()));
    out
}

/// The value that `input` begins with; bytes behind it are ignored. Fails if and only if
/// `input` begins with no encoding.
pub fn decode<T: Codec>(input: &[u8]) -> (r: Result<T, String>)
    ensures
        match r {
            Ok(x) => T::fits(x.value()) && begins(input@, T::bytes(x.value())),
            Err(e) => e@ == T::error(input@) && forall|v: T::Value|
                T::fits(v) ==> !begins(input@, #[trigger] T::bytes(v)),
        },
{
    assert(input@.subrange(0, input@.len() as int) =~= input@);
    match T::decode_at(input, 0) {
        Ok((x, _)) => Ok(x),
        Err(e) => Err(e),
    }
}

/// Reading gives back what was written: from an encoding, whatever stands behind it, no other
/// value can be read than the one that was encoded, and that one is there to be read.
pub proof fn law_read_back<T: Codec>(written: T::Value, behind: Seq<u8>, read: T::Value)
    requires
        T::fits(written),
        T::fits(read),
    ensures
        begins(T::bytes(written) + behind, T::bytes(written)),
        begins(T::bytes(written) + behind, T::bytes(read)) ==> read == written,
{
    let s = T::bytes(written) + behind;
    assert(s.subrange(0, T::bytes(written).len() as int) =~= T::bytes(written));
    if begins(s, T::bytes(read)) {
        T::unique(s, written, read);
    }
}

/// What begins with `tag` and an encoding.
pub(crate) proof fn lemma_tagged(s: Seq<u8>, tag: u8, x: Seq<u8>)
    ensures
        (seq![tag] + x)[0] == tag,
        begins(s, seq![tag] + x) <==> s.len() > 0 && s[0] == tag && begins(
            s.subrange(1, s.len() as int),
            x,
        ),
{
    lemma_begins_concat(s, seq![tag], x);
    if s.len() > 0 && s[0] == tag {
        assert(s.subrange(0, 1) =~= seq![tag]);
    }
    if begins(s, seq![tag]) {
        assert(s.subrange(0, 1)[0] == tag);
    }
}

/// The encodings of the simple types: numbers from the low byte on, arrays as they are, truth as a
/// one, pairs one behind the other, and a byte in front that tells whether there is something.
pub proof fn law_simple_encodings<A: Codec, B: Codec>(
    n: u64,
    bytes: [u8; 32],
    a: A::Value,
    b: B::Value,
    i: int,
)
    ensures
        u64::bytes(n).len() == 8,
        0 <= i < 8 ==> u64::bytes(n)[i] as int == (n as int / pow(256, i as nat)) % 256,
        <[u8; 32]>::bytes(bytes) == bytes@,
        bool::bytes(true) == seq![1u8],
        bool::bytes(false) == seq![0u8],
        <(A, B)>::bytes((a, b)) == A::bytes(a) + B::bytes(b),
        Option::<A>::bytes(None) == seq![0u8],
        Option::<A>::bytes(Some(a)) == seq![1u8] + A::bytes(a),
        u64::fits(n) && <[u8; 32]>::fits(bytes) && bool::fits(true) && bool::fits(false),
        <(A, B)>::fits((a, b)) <==> A::fits(a) && B::fits(b),
        Option::<A>::fits(Some(a)) <==> A::fits(a),
        Option::<A>::fits(None),
{
    lemma_le_len(n as nat, 8);
    if 0 <= i < 8 {
        lemma_le_digit(n as nat, 8, i);
    }
}

proof fn lemma_le_digit(x: nat, len: nat, i: int)
    requires
        0 <= i < len,
    ensures
        le_bytes(x, len).len() == len,
        le_bytes(x, len)[i] as int == (x as int / pow(256, i as nat)) % 256,
    decreases len,
{
    lemma_le_len(x, len);
    if i == 0 {
        vstd::arithmetic::power::lemma_pow0(256);
        assert(le_bytes(x, len)[0] == (x % 256) as u8);
    } else {
        let l = (len - 1) as nat;
        let k = (i - 1) as nat;
        lemma_le_digit(x / 256, l, i - 1);
        assert(le_bytes(x, len)[i] == le_bytes(x / 256, l)[i - 1]);
        lemma_pow_adds(256, 1, k);
        lemma_pow1(256);
        vstd::arithmetic::power::lemma_pow_positive(256, k);
        vstd::arithmetic::div_mod::lemma_div_denominator(x as int, 256, pow(256, k));
    }
}

/// A list is encoded as the compact form of its length, and its items one behind the other. It
/// fits if a `u32` holds its length and each item fits.
pub proof fn law_list_encoding<T: Codec>(items: Seq<T::Value>, more: T::Value)
    ensures
        Vec::<T>::bytes(items) == compact_bytes(items.len() as u32) + items_bytes::<T>(items),
        items_bytes::<T>(Seq::empty()) == Seq::<u8>::empty(),
        items_bytes::<T>(items.push(more)) == items_bytes::<T>(items) + T::bytes(more),
        Vec::<T>::fits(items) <==> items.len() <= u32::MAX && forall|i: int|
            0 <= i < items.len() ==> T::fits(#[trigger] items[i]),
{
    lemma_items_push::<T>(items, more);
}

/// What could not be read is told line by line, from the outside in, each line one tab further in
/// than the one before.
pub proof fn law_errors_are_nested(outer: Seq<char>, inner: Seq<char>, error: Seq<char>)
    requires
        error.len() > 0,
        forall|i: int| 0 <= i < error.len() ==> #[trigger] error[i] != '\n',
        inner.len() > 0,
        forall|i: int| 0 <= i < inner.len() ==> #[trigger] inner[i] != '\n',
    ensures
        chained(inner, error) == inner + seq![':', '\n', '\t'] + error + seq!['\n'],
        chained(outer, chained(inner, error)) == outer + seq![':', '\n', '\t'] + inner + seq![
            ':',
            '\n',
            '\t',
            '\t',
        ] + error + seq!['\n'],
{
    lemma_tabbed_line(Seq::empty(), error);
    assert(Seq::<char>::empty() + error =~= error);
    let one = chained(inner, error);
    assert(one =~= inner + seq![':', '\n', '\t'] + error + seq!['\n']);
    let first = inner + seq![':'];
    lemma_tabbed_line(Seq::empty(), first);
    assert(Seq::<char>::empty() + first =~= first);
    let head = first.push('\n');
    assert(head.drop_last() =~= first);
    assert(tabbed(head) =~= seq!['\t'] + head);
    let second = seq!['\t'] + error;
    lemma_tabbed_line(head, second);
    let all = head + second;
    assert(one =~= all.push('\n'));
    assert(one.drop_last() =~= all);
    assert(all.last() == error.last());
    assert(tabbed(one) =~= tabbed(all) + seq!['\n']);
    assert(chained(outer, one) =~= outer + seq![':', '\n', '\t'] + inner + seq![
        ':',
        '\n',
        '\t',
        '\t',
    ] + error + seq!['\n']);
}

proof fn lemma_tabbed_line(head: Seq<char>, line: Seq<char>)
    requires
        head.len() > 0 ==> head.last() == '\n',
        line.len() > 0,
        forall|i: int| 0 <= i < line.len() ==> #[trigger] line[i] != '\n',
    ensures
        tabbed(head + line) == tabbed(head) + seq!['\t'] + line,
    decreases line.len(),
{
    let text = head + line;
    let front = line.drop_last();
    assert(text.drop_last() =~= head + front);
    assert(text.last() == line.last());
    if front.len() == 0 {
        assert(head + front =~= head);
        assert(line =~= seq![line.last()]);
        assert(tabbed(text) =~= tabbed(head) + seq!['\t'] + line);
    } else {
        lemma_tabbed_line(head, front);
        assert((head + front).last() == front.last());
        assert(front.last() == line[front.len() - 1]);
        assert(tabbed(text) =~= tabbed(head) + seq!['\t'] + line);
    }
}

/// What was encoded is decoded again, whatever stands behind it.
pub proof fn law_encoded_is_decoded<T: Codec>(
    x: T,
    encoded: Vec<u8>,
    input: &[u8],
    behind: Seq<u8>,
    r: Result<T, String>,
)
    requires
        T::fits(x.value()),
        call_ensures(encode::<T>, (&x,), encoded),
        input@ == encoded@ + behind,
        call_ensures(decode::<T>, (input,), r),
    ensures
        r matches Ok(read) && read.value() == x.value(),
{
    law_read_back::<T>(x.value(), behind, x.value());
    if let Ok(read) = r {
        law_read_back::<T>(x.value(), behind, read.value());
    }
}

pub(crate) proof fn lemma_le4(n: u32)
    ensures
        le_bytes(n as nat, 4).len() == 4,
{
    lemma_le_len(n as nat, 4);
}

/// What is said of bytes that hold no simple value, or no pair, option or list: where they end too
/// early, or hold another byte than there can be, or where a part of them is at fault, what is said
/// of that part.
pub proof fn law_simple_errors<A: Codec, B: Codec>(s: Seq<u8>, a: A::Value)
    ensures
        u64::error(s) == TOO_SHORT@,
        <[u8; 32]>::error(s) == TOO_SHORT@,
        bool::error(Seq::empty()) == TOO_SHORT@,
        s.len() > 0 && s[0] > 1 ==> bool::error(s) == "Invalid boolean representation"@,
        s.len() > 0 && s[0] > 1 ==> Option::<A>::error(s)
            == "unexpected first byte decoding Option"@,
        s.len() > 0 && s[0] == 1 ==> Option::<A>::error(s) == chained(
            "Could not decode `Option::Some(T)`"@,
            A::error(s.subrange(1, s.len() as int)),
        ),
        Option::<A>::error(Seq::empty()) == chained(
            "Could not decode variant byte for `Option`"@,
            TOO_SHORT@,
        ),
        (forall|v: A::Value| A::fits(v) ==> !begins(s, #[trigger] A::bytes(v))) ==> <(
            A,
            B,
        )>::error(s) == A::error(s),
        A::fits(a) && begins(s, A::bytes(a)) ==> <(A, B)>::error(s) == B::error(
            s.subrange(A::bytes(a).len() as int, s.len() as int),
        ),
        (forall|n: u32| !begins(s, #[trigger] compact_bytes(n))) ==> Vec::<A>::error(s)
            == compact_error(s),
{
    if A::fits(a) && begins(s, A::bytes(a)) {
        lemma_reads::<A>(s, a);
    }
}

/// Where a list is at fault in an item, behind all items before it, what is said of that item is
/// what is said of the list.
pub proof fn law_list_errors<T: Codec>(n: u32, items: Seq<T::Value>, rest: Seq<u8>)
    requires
        items.len() < n,
        forall|i: int| 0 <= i < items.len() ==> T::fits(#[trigger] items[i]),
        forall|v: T::Value| T::fits(v) ==> !begins(rest, #[trigger] T::bytes(v)),
    ensures
        Vec::<T>::error(compact_bytes(n) + (items_bytes::<T>(items) + rest)) == T::error(rest),
{
    let tail = items_bytes::<T>(items) + rest;
    let s = compact_bytes(n) + tail;
    assert(s.subrange(0, compact_bytes(n).len() as int) =~= compact_bytes(n));
    assert(begins(s, compact_bytes(n)));
    let m = choose|m: u32| begins(s, #[trigger] compact_bytes(m));
    lemma_compact_unique(s, m, n);
    assert(s.subrange(compact_bytes(n).len() as int, s.len() as int) =~= tail);
    lemma_items_error::<T>(n as nat, items, rest);
}

proof fn lemma_items_error<T: Codec>(n: nat, items: Seq<T::Value>, rest: Seq<u8>)
    requires
        items.len() < n,
        forall|i: int| 0 <= i < items.len() ==> T::fits(#[trigger] items[i]),
        forall|v: T::Value| T::fits(v) ==> !begins(rest, #[trigger] T::bytes(v)),
    ensures
        items_error::<T>(n, items_bytes::<T>(items) + rest) == T::error(rest),
    decreases items.len(),
{
    let s = items_bytes::<T>(items) + rest;
    if items.len() == 0 {
        assert(s =~= rest);
        assert(!reads::<T>(s));
    } else {
        let first = items.first();
        assert(T::fits(items[0]));
        let others = items.drop_first();
        assert forall|i: int| 0 <= i < others.len() implies T::fits(#[trigger] others[i]) by {
            assert(others[i] == items[i + 1]);
        }
        let behind = items_bytes::<T>(others) + rest;
        assert(s =~= T::bytes(first) + behind);
        assert(s.subrange(0, T::bytes(first).len() as int) =~= T::bytes(first));
        lemma_reads::<T>(s, first);
        assert(s.subrange(T::bytes(first).len() as int, s.len() as int) =~= behind);
        lemma_items_error::<T>((n - 1) as nat, others, rest);
    }
}

} // verus!
