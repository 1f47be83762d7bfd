//! The votes of a view, and what carries them.
use crate::fields::{
    Field, COMMIT_TARGET_HASH, COMMIT_TARGET_NUMBER, MESSAGE_COMMIT_0, MESSAGE_PRE_PREPARE_0,
    MESSAGE_PREPARE_0, PRE_PREPARE_TARGET_HASH, PRE_PREPARE_TARGET_NUMBER, PREPARE_TARGET_HASH,
    PREPARE_TARGET_NUMBER, PUBLIC_0, SIGNATURE_0, SIGNED_MESSAGE_ID, SIGNED_MESSAGE_MESSAGE,
    SIGNED_MESSAGE_SIGNATURE,
};
use crate::scale::{
    begins, chained, items_bytes, le_bytes, lemma_tagged, no_variant, no_variant_byte, unknown,
    unknown_variant, Codec, TOO_SHORT,
};
use vstd::prelude::*;

verus! {

/// The hash of a block.
pub type BlockHash = [u8; 32];

/// The number of a block.
pub type BlockNumber = u64;

/// Identity of an authority: its ed25519 public key.
pub type AuthorityId = [u8; 32];

/// Signature of an authority.
pub type AuthoritySignature = [u8; 64];

/// The monotonic identifier of a set of authorities.
pub type SetId = u64;

/// The view indicator.
pub type ViewNumber = u64;

/// A list of authorities.
pub type AuthorityList = Vec<AuthorityId>;

/// An authority id as it is encoded: a key of an application, which holds a key.
pub type IdCode = Field<PUBLIC_0, Field<PUBLIC_0, AuthorityId>>;

/// A signature as it is encoded: one of an application, which holds a signature.
pub type SignatureCode = Field<SIGNATURE_0, Field<SIGNATURE_0, AuthoritySignature>>;

/// Whether the two arrays hold the same bytes.
pub fn same_bytes<const N: usize>(a: &[u8; N], b: &[u8; N]) -> (r: bool)
    ensures
        r == (*a == *b),
{
    for i in 0..N
        invariant
            forall|j: int| 0 <= j < i ==> a@[j] == b@[j],
    {
        if a[i] != b[i] {
            return false;
        }
    }
    assert(*a =~= *b) by {
        assert forall|i: int| 0 <= i < N implies a[i] == b[i] by {
            assert(a@[i] == b@[i]);
        }
    }
    true
}

/// A list of authority ids as it is encoded.
pub struct Ids {
    /// The list.
    pub ids: AuthorityList,
}

proof fn lemma_id_items(ids: Seq<AuthorityId>)
    ensures
        items_bytes::<IdCode>(ids) == items_bytes::<AuthorityId>(ids),
    decreases ids.len(),
{
    if ids.len() > 0 {
        lemma_id_items(ids.drop_first());
    }
}

/// One id behind the other.
impl Codec for Ids {
    type Value = Seq<AuthorityId>;

    open spec fn value(&self) -> Seq<AuthorityId> {
        self.ids@
    }

    open spec fn fits(v: Seq<AuthorityId>) -> bool {
        AuthorityList::fits(v)
    }

    open spec fn bytes(v: Seq<AuthorityId>) -> Seq<u8> {
        AuthorityList::bytes(v)
    }

    open spec fn error(s: Seq<u8>) -> Seq<char> {
        Vec::<IdCode>::error(s)
    }

    proof fn unique(s: Seq<u8>, a: Seq<AuthorityId>, b: Seq<AuthorityId>) {
        AuthorityList::unique(s, a, b);
    }

    fn encode_to(&self, out: &mut Vec<u8>) {
        assert(self.ids.value() =~= self.ids@);
        self.ids.encode_to(out);
    }

    fn decode_at(input: &[u8], at: usize) -> (r: Result<(Self, usize), String>) {
        proof {
            assert forall|v: Seq<AuthorityId>| #[trigger]
                Vec::<IdCode>::bytes(v) == AuthorityList::bytes(v) && Vec::<IdCode>::fits(v)
                    == AuthorityList::fits(v) by {
                lemma_id_items(v);
            }
        }
        match Vec::<IdCode>::decode_at(input, at) {
            Ok((codes, end)) => {
                let mut ids: AuthorityList = Vec::new();
                for i in 0..codes.len()
                    invariant
                        ids@.len() == i,
                        forall|j: int| 0 <= j < i ==> #[trigger] ids@[j] == codes@[j].value(),
                {
                    ids.push(codes[i].value.value);
                }
                assert(ids@ =~= codes.value());
                Ok((Ids { ids }, end))
            },
            Err(e) => {
                proof {
                    assert forall|v: Seq<AuthorityId>| Self::fits(v) implies !begins(
                        input@.subrange(at as int, input@.len() as int),
                        #[trigger] Self::bytes(v),
                    ) by {
                        assert(Self::bytes(v) == Vec::<IdCode>::bytes(v));
                    }
                }
                Err(e)
            },
        }
    }
}

/// A copy of the list.
pub fn copy_ids(ids: &[AuthorityId]) -> (r: AuthorityList)
    ensures
        r@ == ids@,
{
    let mut copy: AuthorityList = Vec::new();
    for i in 0..ids.len()
        invariant
            copy@ == ids@.subrange(0, i as int),
    {
        copy.push(ids[i]);
        assert(ids@.subrange(0, i + 1) =~= ids@.subrange(0, i as int).push(ids@[i as int]));
    }
    assert(ids@.subrange(0, ids@.len() as int) =~= ids@);
    copy
}

/// A proposal for a view.
#[derive(Clone, Copy, Debug, PartialEq, Eq)]
pub struct PrePrepare {
    /// The proposed block's hash.
    pub target_hash: BlockHash,
    /// The proposed block's number.
    pub target_number: BlockNumber,
}

/// A first-phase vote of a view.
#[derive(Clone, Copy, Debug, PartialEq, Eq)]
pub struct Prepare {
    /// The prepared block's hash.
    pub target_hash: BlockHash,
    /// The prepared block's number.
    pub target_number: BlockNumber,
}

/// A second-phase vote of a view.
#[derive(Clone, Copy, Debug, PartialEq, Eq)]
pub struct Commit {
    /// The committed block's hash.
    pub target_hash: BlockHash,
    /// The committed block's number.
    pub target_number: BlockNumber,
}

/// The fields, in order.
type PrePrepareRow = (
    Field<PRE_PREPARE_TARGET_HASH, BlockHash>,
    Field<PRE_PREPARE_TARGET_NUMBER, BlockNumber>,
);

/// The hash, and the number.
impl Codec for PrePrepare {
    type Value = PrePrepare;

    open spec fn value(&self) -> PrePrepare {
        *self
    }

    open spec fn fits(v: PrePrepare) -> bool {
        PrePrepareRow::fits((v.target_hash, v.target_number))
    }

    open spec fn bytes(v: PrePrepare) -> Seq<u8> {
        PrePrepareRow::bytes((v.target_hash, v.target_number))
    }

    open spec fn error(s: Seq<u8>) -> Seq<char> {
        PrePrepareRow::error(s)
    }

    proof fn unique(s: Seq<u8>, a: PrePrepare, b: PrePrepare) {
        PrePrepareRow::unique(
            s,
            (a.target_hash, a.target_number),
            (b.target_hash, b.target_number),
        );
    }

    fn encode_to(&self, out: &mut Vec<u8>) {
        (self.target_hash, self.target_number).encode_to(out);
    }

    fn decode_at(input: &[u8], at: usize) -> (r: Result<(Self, usize), String>) {
        match PrePrepareRow::decode_at(input, at) {
            Ok(((hash, number), end)) => Ok(
                (PrePrepare { target_hash: hash.value, target_number: number.value }, end),
            ),
            Err(e) => {
                proof {
                    assert forall|v: PrePrepare| Self::fits(v) implies !begins(
                        input@.subrange(at as int, input@.len() as int),
                        #[trigger] Self::bytes(v),
                    ) by {
                        assert(Self::bytes(v) == PrePrepareRow::bytes(
                            (v.target_hash, v.target_number),
                        ));
                    }
                }
                Err(e)
            },
        }
    }
}

/// The fields, in order.
type PrepareRow = (
    Field<PREPARE_TARGET_HASH, BlockHash>,
    Field<PREPARE_TARGET_NUMBER, BlockNumber>,
);

/// The hash, and the number.
impl Codec for Prepare {
    type Value = Prepare;

    open spec fn value(&self) -> Prepare {
        *self
    }

    open spec fn fits(v: Prepare) -> bool {
        PrepareRow::fits((v.target_hash, v.target_number))
    }

    open spec fn bytes(v: Prepare) -> Seq<u8> {
        PrepareRow::bytes((v.target_hash, v.target_number))
    }

    open spec fn error(s: Seq<u8>) -> Seq<char> {
        PrepareRow::error(s)
    }

    proof fn unique(s: Seq<u8>, a: Prepare, b: Prepare) {
        PrepareRow::unique(
            s,
            (a.target_hash, a.target_number),
            (b.target_hash, b.target_number),
        );
    }

    fn encode_to(&self, out: &mut Vec<u8>) {
        (self.target_hash, self.target_number).encode_to(out);
    }

    fn decode_at(input: &[u8], at: usize) -> (r: Result<(Self, usize), String>) {
        match PrepareRow::decode_at(input, at) {
            Ok(((hash, number), end)) => Ok(
                (Prepare { target_hash: hash.value, target_number: number.value }, end),
            ),
            Err(e) => {
                proof {
                    assert forall|v: Prepare| Self::fits(v) implies !begins(
                        input@.subrange(at as int, input@.len() as int),
                        #[trigger] Self::bytes(v),
                    ) by {
                        assert(Self::bytes(v) == PrepareRow::bytes(
                            (v.target_hash, v.target_number),
                        ));
                    }
                }
                Err(e)
            },
        }
    }
}

/// The fields, in order.
type CommitRow = (
    Field<COMMIT_TARGET_HASH, BlockHash>,
    Field<COMMIT_TARGET_NUMBER, BlockNumber>,
);

/// The hash, and the number.
impl Codec for Commit {
    type Value = Commit;

    open spec fn value(&self) -> Commit {
        *self
    }

    open spec fn fits(v: Commit) -> bool {
        CommitRow::fits((v.target_hash, v.target_number))
    }

    open spec fn bytes(v: Commit) -> Seq<u8> {
        CommitRow::bytes((v.target_hash, v.target_number))
    }

    open spec fn error(s: Seq<u8>) -> Seq<char> {
        CommitRow::error(s)
    }

    proof fn unique(s: Seq<u8>, a: Commit, b: Commit) {
        CommitRow::unique(
            s,
            (a.target_hash, a.target_number),
            (b.target_hash, b.target_number),
        );
    }

    fn encode_to(&self, out: &mut Vec<u8>) {
        (self.target_hash, self.target_number).encode_to(out);
    }

    fn decode_at(input: &[u8], at: usize) -> (r: Result<(Self, usize), String>) {
        match CommitRow::decode_at(input, at) {
            Ok(((hash, number), end)) => Ok(
                (Commit { target_hash: hash.value, target_number: number.value }, end),
            ),
            Err(e) => {
                proof {
                    assert forall|v: Commit| Self::fits(v) implies !begins(
                        input@.subrange(at as int, input@.len() as int),
                        #[trigger] Self::bytes(v),
                    ) by {
                        assert(Self::bytes(v) == CommitRow::bytes(
                            (v.target_hash, v.target_number),
                        ));
                    }
                }
                Err(e)
            },
        }
    }
}

/// A message of a view.
#[derive(Clone, Copy, Debug, PartialEq, Eq)]
pub enum Message {
    /// A proposal.
    PrePrepare(PrePrepare),
    /// A first-phase vote.
    Prepare(Prepare),
    /// A second-phase vote.
    Commit(Commit),
}

/// A byte that tells the kind, and the vote.
impl Codec for Message {
    type Value = Message;

    open spec fn value(&self) -> Message {
        *self
    }

    open spec fn fits(v: Message) -> bool {
        true
    }

    open spec fn bytes(v: Message) -> Seq<u8> {
        match v {
            Message::PrePrepare(x) => seq![0u8] + PrePrepare::bytes(x),
            Message::Prepare(x) => seq![1u8] + Prepare::bytes(x),
            Message::Commit(x) => seq![2u8] + Commit::bytes(x),
        }
    }

    open spec fn error(s: Seq<u8>) -> Seq<char> {
        let rest = s.subrange(1, s.len() as int);
        if s.len() == 0 {
            no_variant("Message"@)
        } else if s[0] == 0 {
            Field::<MESSAGE_PRE_PREPARE_0, PrePrepare>::error(rest)
        } else if s[0] == 1 {
            Field::<MESSAGE_PREPARE_0, Prepare>::error(rest)
        } else if s[0] == 2 {
            Field::<MESSAGE_COMMIT_0, Commit>::error(rest)
        } else {
            unknown("Message"@)
        }
    }

    proof fn unique(s: Seq<u8>, a: Message, b: Message) {
        lemma_message_begins(s, a);
        lemma_message_begins(s, b);
        let t = s.subrange(1, s.len() as int);
        match (a, b) {
            (Message::PrePrepare(x), Message::PrePrepare(y)) => PrePrepare::unique(t, x, y),
            (Message::Prepare(x), Message::Prepare(y)) => Prepare::unique(t, x, y),
            (Message::Commit(x), Message::Commit(y)) => Commit::unique(t, x, y),
            _ => {},
        }
    }

    fn encode_to(&self, out: &mut Vec<u8>) {
        let ghost before = out@;
        match self {
            Message::PrePrepare(x) => {
                out.push(0);
                x.encode_to(out);
            },
            Message::Prepare(x) => {
                out.push(1);
                x.encode_to(out);
            },
            Message::Commit(x) => {
                out.push(2);
                x.encode_to(out);
            },
        }
        assert(out@ =~= before + Self::bytes(*self));
    }

    fn decode_at(input: &[u8], at: usize) -> (r: Result<(Self, usize), String>) {
        let ghost rest = input@.subrange(at as int, input@.len() as int);
        proof {
            assert forall|v: Message| begins(rest, #[trigger] Self::bytes(v)) implies rest.len() > 0
                && rest[0] == message_tag(v) && begins(
                input@.subrange(at + 1, input@.len() as int),
                message_payload(v),
            ) by {
                lemma_message_begins(rest, v);
                assert(rest.subrange(1, rest.len() as int) =~= input@.subrange(
                    at + 1,
                    input@.len() as int,
                ));
            }
        }
        if at >= input.len() {
            return Err(no_variant_byte("Message"));
        }
        let tag: u8 = input[at];
        assert(rest.subrange(1, rest.len() as int) =~= input@.subrange(
            at + 1,
            input@.len() as int,
        ));
        let found = if tag == 0 {
            match Field::<MESSAGE_PRE_PREPARE_0, PrePrepare>::decode_at(input, at + 1) {
                Ok((x, end)) => Ok((Message::PrePrepare(x.value), end)),
                Err(e) => Err(e),
            }
        } else if tag == 1 {
            match Field::<MESSAGE_PREPARE_0, Prepare>::decode_at(input, at + 1) {
                Ok((x, end)) => Ok((Message::Prepare(x.value), end)),
                Err(e) => Err(e),
            }
        } else if tag == 2 {
            match Field::<MESSAGE_COMMIT_0, Commit>::decode_at(input, at + 1) {
                Ok((x, end)) => Ok((Message::Commit(x.value), end)),
                Err(e) => Err(e),
            }
        } else {
            Err(unknown_variant("Message"))
        };
        proof {
            if let Ok((_, end)) = found {
                assert(input@.subrange(at as int, end as int) =~= seq![tag] + input@.subrange(
                    at + 1,
                    end as int,
                ));
            }
        }
        found
    }
}

spec fn message_tag(v: Message) -> u8 {
    match v {
        Message::PrePrepare(_) => 0,
        Message::Prepare(_) => 1,
        Message::Commit(_) => 2,
    }
}

spec fn message_payload(v: Message) -> Seq<u8> {
    match v {
        Message::PrePrepare(x) => Field::<MESSAGE_PRE_PREPARE_0, PrePrepare>::bytes(x),
        Message::Prepare(x) => Field::<MESSAGE_PREPARE_0, Prepare>::bytes(x),
        Message::Commit(x) => Field::<MESSAGE_COMMIT_0, Commit>::bytes(x),
    }
}

proof fn lemma_message_begins(s: Seq<u8>, v: Message)
    ensures
        begins(s, Message::bytes(v)) <==> s.len() > 0 && s[0] == message_tag(v) && begins(
            s.subrange(1, s.len() as int),
            message_payload(v),
        ),
{
    lemma_tagged(s, message_tag(v), message_payload(v));
}

/// A message with its author and the author's signature.
#[derive(Clone, Copy, Debug, PartialEq, Eq)]
pub struct SignedMessage {
    /// The message.
    pub message: Message,
    /// The signature of the message, localized to its view and set.
    pub signature: AuthoritySignature,
    /// Who signed.
    pub id: AuthorityId,
}

/// The fields of a signed message, in order.
type SignedRow = (
    Field<SIGNED_MESSAGE_MESSAGE, Message>,
    (
        Field<SIGNED_MESSAGE_SIGNATURE, SignatureCode>,
        Field<SIGNED_MESSAGE_ID, IdCode>,
    ),
);

/// The message, the signature, and the author.
impl Codec for SignedMessage {
    type Value = SignedMessage;

    open spec fn value(&self) -> SignedMessage {
        *self
    }

    open spec fn fits(v: SignedMessage) -> bool {
        SignedRow::fits((v.message, (v.signature, v.id)))
    }

    open spec fn bytes(v: SignedMessage) -> Seq<u8> {
        SignedRow::bytes((v.message, (v.signature, v.id)))
    }

    open spec fn error(s: Seq<u8>) -> Seq<char> {
        SignedRow::error(s)
    }

    proof fn unique(s: Seq<u8>, a: SignedMessage, b: SignedMessage) {
        SignedRow::unique(
            s,
            (a.message, (a.signature, a.id)),
            (b.message, (b.signature, b.id)),
        );
    }

    fn encode_to(&self, out: &mut Vec<u8>) {
        (self.message, (self.signature, self.id)).encode_to(out);
    }

    fn decode_at(input: &[u8], at: usize) -> (r: Result<(Self, usize), String>) {
        match SignedRow::decode_at(input, at) {
            Ok(((message, (signature, id)), end)) => Ok(
                (
                    SignedMessage {
                        message: message.value,
                        signature: signature.value.value.value,
                        id: id.value.value.value,
                    },
                    end,
                ),
            ),
            Err(e) => {
                proof {
                    assert forall|v: SignedMessage| Self::fits(v) implies !begins(
                        input@.subrange(at as int, input@.len() as int),
                        #[trigger] Self::bytes(v),
                    ) by {
                        assert(Self::bytes(v) == SignedRow::bytes(
                            (v.message, (v.signature, v.id)),
                        ));
                    }
                }
                Err(e)
            },
        }
    }
}

/// The encodings of votes: the hash and the number of the block, with a byte in front that tells
/// the kind, and behind it the signature and the author.
pub proof fn law_message_encodings(
    p: PrePrepare,
    v: Prepare,
    c: Commit,
    signed: SignedMessage,
)
    ensures
        PrePrepare::bytes(p) == p.target_hash@ + le_bytes(p.target_number as nat, 8),
        Prepare::bytes(v) == v.target_hash@ + le_bytes(v.target_number as nat, 8),
        Commit::bytes(c) == c.target_hash@ + le_bytes(c.target_number as nat, 8),
        Message::bytes(Message::PrePrepare(p)) == seq![0u8] + PrePrepare::bytes(p),
        Message::bytes(Message::Prepare(v)) == seq![1u8] + Prepare::bytes(v),
        Message::bytes(Message::Commit(c)) == seq![2u8] + Commit::bytes(c),
        SignedMessage::bytes(signed) == Message::bytes(signed.message) + signed.signature@
            + signed.id@,
        PrePrepare::fits(p) && Prepare::fits(v) && Commit::fits(c),
        Message::fits(signed.message) && SignedMessage::fits(signed),
{
    assert(SignedMessage::bytes(signed) =~= Message::bytes(signed.message) + signed.signature@
        + signed.id@);
}

/// What is said of bytes that hold no proposal: which of its fields cannot be read, the first one
/// at fault, and what is said of that field.
pub proof fn law_pre_prepare_errors(s: Seq<u8>)
    ensures
        PrePrepare::error(s)
            == <(
                Field<PRE_PREPARE_TARGET_HASH, BlockHash>,
                Field<PRE_PREPARE_TARGET_NUMBER, BlockNumber>,
            )>::error(s),
{
}

/// What is said of bytes that hold no prevote: which of its fields cannot be read, the first one
/// at fault, and what is said of that field.
pub proof fn law_prepare_errors(s: Seq<u8>)
    ensures
        Prepare::error(s)
            == <(
                Field<PREPARE_TARGET_HASH, BlockHash>,
                Field<PREPARE_TARGET_NUMBER, BlockNumber>,
            )>::error(s),
{
}

/// What is said of bytes that hold no precommit: which of its fields cannot be read, the first
/// one at fault, and what is said of that field.
pub proof fn law_commit_errors(s: Seq<u8>)
    ensures
        Commit::error(s)
            == <(
                Field<COMMIT_TARGET_HASH, BlockHash>,
                Field<COMMIT_TARGET_NUMBER, BlockNumber>,
            )>::error(s),
{
}

/// What is said of bytes that hold no vote: that the first byte is missing or stands for nothing,
/// or which field behind it cannot be read, and what is said of that field.
pub proof fn law_message_errors(s: Seq<u8>)
    ensures
        Message::error(Seq::empty()) == chained(
            "Could not decode `"@ + "Message"@ + "`, failed to read variant byte"@,
            TOO_SHORT@,
        ),
        s.len() > 0 && s[0] != 0 && s[0] != 1 && s[0] != 2 ==> Message::error(s)
            == "Could not decode `"@ + "Message"@ + "`, variant doesn't exist"@,
        s.len() > 0 && s[0] == 0 ==> Message::error(s)
            == Field::<MESSAGE_PRE_PREPARE_0, PrePrepare>::error(s.subrange(1, s.len() as int)),
        s.len() > 0 && s[0] == 1 ==> Message::error(s)
            == Field::<MESSAGE_PREPARE_0, Prepare>::error(s.subrange(1, s.len() as int)),
        s.len() > 0 && s[0] == 2 ==> Message::error(s)
            == Field::<MESSAGE_COMMIT_0, Commit>::error(s.subrange(1, s.len() as int)),
{
}

/// What is said of bytes that hold no signed vote: which of its fields cannot be read, the first
/// one at fault, and what is said of that field.
pub proof fn law_signed_message_errors(s: Seq<u8>)
    ensures
        SignedMessage::error(s)
            == <(
                Field<SIGNED_MESSAGE_MESSAGE, Message>,
                (
                    Field<
                        SIGNED_MESSAGE_SIGNATURE,
                        Field<
                            SIGNATURE_0,
                            Field<SIGNATURE_0, AuthoritySignature>,
                        >,
                    >,
                    Field<
                        SIGNED_MESSAGE_ID,
                        Field<PUBLIC_0, Field<PUBLIC_0, AuthorityId>>,
                    >,
                ),
            )>::error(s),
{
}

} // verus!
