//! Names under which messages are gossiped.
use crate::decimal::{
    all_digits, append_decimal, decimal_chars, lemma_decimal_digits, lemma_decimal_injective,
};
use crate::messages::{SetId, ViewNumber};
use sp_core::Hasher;
use sp_runtime::traits::BlakeTwo256;
use vstd::prelude::*;
use vstd::string::StringExecFns;
use vstd::utf8::{encode_utf8, encode_utf8_decode_utf8};

verus! {

/// The hash that identifies a topic.
pub type TopicHash = [u8; 32];

/// The Blake2 hash, of 256 bits, of the bytes.
pub uninterp spec fn blake2_256(data: Seq<u8>) -> Seq<u8>;

/// `BlakeTwo256::hash` of `sp_runtime`: a hash of 32 bytes that depends on the bytes alone.
#[verifier::external_body]
fn blake_two_256(data: &[u8]) -> (r: TopicHash)
    ensures
        r@ == blake2_256(data@),
{
    BlakeTwo256::hash(data).0
}

/// The text that stands for a view of a set: the set id, a dash, and the view.
pub open spec fn view_text(view: ViewNumber, set_id: SetId) -> Seq<char> {
    decimal_chars(set_id as nat) + "-"@ + decimal_chars(view as nat)
}

/// The text that stands for the global messages of a set.
pub open spec fn global_text(set_id: SetId) -> Seq<char> {
    decimal_chars(set_id as nat) + "-GLOBAL"@
}

/// Create a unique topic for a view and set-id combo.
pub fn view_topic(view: ViewNumber, set_id: SetId) -> (r: TopicHash)
    ensures
        r@ == blake2_256(encode_utf8(view_text(view, set_id))),
{
    let mut text = String::new();
    append_decimal(&mut text, set_id);
    text.append("-");
    append_decimal(&mut text, view);
    assert(text@ =~= view_text(view, set_id));
    blake_two_256(text.as_str().as_bytes())
}

/// Create a unique topic for global messages on a set ID.
pub fn global_topic(set_id: SetId) -> (r: TopicHash)
    ensures
        r@ == blake2_256(encode_utf8(global_text(set_id))),
{
    let mut text = String::new();
    append_decimal(&mut text, set_id);
    text.append("-GLOBAL");
    assert(text@ =~= global_text(set_id));
    blake_two_256(text.as_str().as_bytes())
}

/// Where two texts are the same and each is digits, a dash and something, the digits are the
/// same, and so is what follows the dash.
proof fn lemma_split_at_dash(a1: Seq<char>, b1: Seq<char>, a2: Seq<char>, b2: Seq<char>)
    requires
        all_digits(a1),
        all_digits(a2),
        a1 + seq!['-'] + b1 == a2 + seq!['-'] + b2,
    ensures
        a1 == a2,
        b1 == b2,
{
    let (s1, s2) = (a1 + seq!['-'] + b1, a2 + seq!['-'] + b2);
    assert(s1[a1.len() as int] == '-' && s2[a2.len() as int] == '-');
    if a1.len() < a2.len() {
        assert(s2[a1.len() as int] == a2[a1.len() as int]);
    }
    if a2.len() < a1.len() {
        assert(s1[a2.len() as int] == a1[a2.len() as int]);
    }
    let n = a1.len() as int;
    assert(a1 =~= s1.subrange(0, n));
    assert(a2 =~= s2.subrange(0, n));
    assert(b1 =~= s1.subrange(n + 1, s1.len() as int));
    assert(b2 =~= s2.subrange(n + 1, s2.len() as int));
}

/// The bytes hashed for the topic of a view belong to one view and one set.
pub proof fn law_view_topics_differ(
    view1: ViewNumber,
    set_id1: SetId,
    view2: ViewNumber,
    set_id2: SetId,
)
    requires
        encode_utf8(view_text(view1, set_id1)) == encode_utf8(view_text(view2, set_id2)),
    ensures
        view1 == view2,
        set_id1 == set_id2,
{
    encode_utf8_decode_utf8(view_text(view1, set_id1));
    encode_utf8_decode_utf8(view_text(view2, set_id2));
    reveal_strlit("-");
    assert("-"@ =~= seq!['-']);
    lemma_decimal_digits(set_id1 as nat);
    lemma_decimal_digits(set_id2 as nat);
    lemma_split_at_dash(
        decimal_chars(set_id1 as nat),
        decimal_chars(view1 as nat),
        decimal_chars(set_id2 as nat),
        decimal_chars(view2 as nat),
    );
    lemma_decimal_injective(set_id1 as nat, set_id2 as nat);
    lemma_decimal_injective(view1 as nat, view2 as nat);
}

/// The bytes hashed for the global topic of a set belong to one set, and are those of no view's
/// topic.
pub proof fn law_global_topics_differ(set_id1: SetId, set_id2: SetId, view: ViewNumber)
    ensures
        encode_utf8(global_text(set_id1)) == encode_utf8(global_text(set_id2)) ==> set_id1
            == set_id2,
        encode_utf8(global_text(set_id1)) != encode_utf8(view_text(view, set_id2)),
{
    encode_utf8_decode_utf8(global_text(set_id1));
    encode_utf8_decode_utf8(global_text(set_id2));
    encode_utf8_decode_utf8(view_text(view, set_id2));
    reveal_strlit("-");
    reveal_strlit("-GLOBAL");
    let g = seq!['G', 'L', 'O', 'B', 'A', 'L'];
    assert("-"@ =~= seq!['-']);
    assert("-GLOBAL"@ =~= seq!['-'] + g);
    let (d1, d2) = (decimal_chars(set_id1 as nat), decimal_chars(set_id2 as nat));
    lemma_decimal_digits(set_id1 as nat);
    lemma_decimal_digits(set_id2 as nat);
    lemma_decimal_digits(view as nat);
    assert(global_text(set_id1) =~= d1 + seq!['-'] + g);
    assert(global_text(set_id2) =~= d2 + seq!['-'] + g);
    if global_text(set_id1) == global_text(set_id2) {
        lemma_split_at_dash(d1, g, d2, g);
        lemma_decimal_injective(set_id1 as nat, set_id2 as nat);
    }
    if global_text(set_id1) == view_text(view, set_id2) {
        lemma_split_at_dash(d1, g, d2, decimal_chars(view as nat));
        assert(g[0] == 'G');
    }
}

/// The topics are the hashes of texts: of the digits of the set, a dash and the digits of the view,
/// and of the digits of the set and a fixed ending.
pub proof fn law_topics_are_hashed_texts(
    view: ViewNumber,
    set_id: SetId,
    text: &mut String,
    other: &mut String,
    r: TopicHash,
    global: TopicHash,
)
    requires
        call_ensures(view_topic, (view, set_id), r),
        call_ensures(global_topic, (set_id,), global),
        call_ensures(append_decimal, (text, set_id), ()),
        call_ensures(append_decimal, (other, view), ()),
        old(text)@.len() == 0,
        old(other)@ == final(text)@.push('-'),
    ensures
        r@ == blake2_256(encode_utf8(final(other)@)),
        global@ == blake2_256(encode_utf8(final(text)@ + seq!['-', 'G', 'L', 'O', 'B', 'A', 'L'])),
{
    reveal_strlit("-");
    reveal_strlit("-GLOBAL");
    assert("-"@ =~= seq!['-']);
    assert("-GLOBAL"@ =~= seq!['-', 'G', 'L', 'O', 'B', 'A', 'L']);
    let digits = decimal_chars(set_id as nat);
    assert(final(text)@ =~= digits);
    assert(final(other)@ =~= view_text(view, set_id));
    assert(global_text(set_id) =~= digits + seq!['-', 'G', 'L', 'O', 'B', 'A', 'L']);
}

} // verus!
