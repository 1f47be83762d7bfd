//! Signing and checking of messages, each localized to a view and a set of authorities.
use crate::messages::{AuthorityId, AuthoritySignature, Message, SetId, SignedMessage, ViewNumber};
use crate::scale::{array_at, begins, le_bytes, Codec};
use sp_application_crypto::{ed25519, RuntimePublic};
use vstd::prelude::*;

verus! {

/// What is signed for a message: its encoding, the view, and the set id.
pub open spec fn payload_bytes<E: Codec>(message: E::Value, view: u64, set_id: SetId) -> Seq<u8> {
    <(E, (u64, u64))>::bytes((message, (view, set_id)))
}

/// Whether `signature` is an ed25519 signature of `message` under the key `public`.
pub uninterp spec fn ed25519_valid(
    public: Seq<u8>,
    message: Seq<u8>,
    signature: Seq<u8>,
) -> bool;

/// `RuntimePublic::verify` of `sp_application_crypto`, for ed25519 keys: whether the signature
/// is valid. The result depends on the three arguments alone; what makes a signature valid is
/// not stated.
#[verifier::external_body]
fn ed25519_verify(
    public: &AuthorityId,
    message: &[u8],
    signature: &AuthoritySignature,
) -> (r: bool)
    ensures
        r == ed25519_valid(public@, message@, signature@),
{
    ed25519::Public::from_raw(*public).verify(&message, &ed25519::Signature::from_raw(*signature))
}

/// Encodes a message localized to a given view and set id.
pub fn localized_payload<E: Codec>(view: u64, set_id: SetId, message: &E) -> (r: Vec<u8>)
    requires
        E::fits(message.value()),
    ensures
        r@ == payload_bytes::<E>(message.value(), view, set_id),
{
    let mut buf: Vec<u8> = Vec::new();
    localized_payload_with_buffer(view, set_id, message, &mut buf);
    buf
}

/// Encodes a message localized to a given view and set id into `buf`, whose former content
/// is dropped.
pub fn localized_payload_with_buffer<E: Codec>(
    view: u64,
    set_id: SetId,
    message: &E,
    buf: &mut Vec<u8>,
)
    requires
        E::fits(message.value()),
    ensures
        final(buf)@ == payload_bytes::<E>(message.value(), view, set_id),
{
    buf.clear();
    message.encode_to(buf);
    view.encode_to(buf);
    set_id.encode_to(buf);
    assert(buf@ =~= payload_bytes::<E>(message.value(), view, set_id));
}

/// Whether `signature` is the signature by `id` of the message, localized to the view and set.
pub fn check_message_signature<E: Codec>(
    message: &E,
    id: &AuthorityId,
    signature: &AuthoritySignature,
    view: u64,
    set_id: SetId,
) -> (r: bool)
    requires
        E::fits(message.value()),
    ensures
        r == ed25519_valid(
            id@,
            payload_bytes::<E>(message.value(), view, set_id),
            signature@,
        ),
{
    let mut buf: Vec<u8> = Vec::new();
    check_message_signature_with_buffer(message, id, signature, view, set_id, &mut buf)
}

/// Whether `signature` is the signature by `id` of the message, localized to the view and set.
/// The payload is written to `buf`, whose former content is dropped.
pub fn check_message_signature_with_buffer<E: Codec>(
    message: &E,
    id: &AuthorityId,
    signature: &AuthoritySignature,
    view: u64,
    set_id: SetId,
    buf: &mut Vec<u8>,
) -> (r: bool)
    requires
        E::fits(message.value()),
    ensures
        final(buf)@ == payload_bytes::<E>(message.value(), view, set_id),
        r == ed25519_valid(
            id@,
            payload_bytes::<E>(message.value(), view, set_id),
            signature@,
        ),
{
    localized_payload_with_buffer(view, set_id, message, buf);
    ed25519_verify(id, buf.as_slice(), signature)
}

/// The bytes that a keystore answered with, if it did answer and they have a signature's length.
pub open spec fn signature_of_reply<X>(reply: Result<Option<Vec<u8>>, X>) -> Option<Seq<u8>> {
    match reply {
        Ok(Some(bytes)) => if bytes@.len() == 64 {
            Some(bytes@)
        } else {
            None
        },
        _ => None,
    }
}

/// The message with the signature that a keystore answered with, if it did answer with one.
pub fn signed_by_reply<X>(
    message: Message,
    public: AuthorityId,
    reply: Result<Option<Vec<u8>>, X>,
) -> (r: Option<SignedMessage>)
    ensures
        r is Some <==> signature_of_reply(reply) is Some,
        r matches Some(signed) ==> {
            &&& signed.message == message
            &&& signed.id == public
            &&& Some(signed.signature@) == signature_of_reply(reply)
        },
{
    let bytes = match reply {
        Ok(Some(bytes)) => bytes,
        _ => {
            return None;
        },
    };
    if bytes.len() != 64 {
        return None;
    }
    let signature = array_at::<64>(bytes.as_slice(), 0);
    assert(bytes@.subrange(0, 64) =~= bytes@);
    Some(SignedMessage { message, signature, id: public })
}

/// Localizes the message to the given view and set and has `sign`, the keystore, sign the
/// payload. Gives nothing if the keystore fails, does not hold the key, or answers with
/// something that does not have a signature's length.
pub fn sign_message<X, F: FnOnce(&[u8]) -> Result<Option<Vec<u8>>, X>>(
    sign: F,
    message: Message,
    public: AuthorityId,
    view: ViewNumber,
    set_id: SetId,
) -> (r: Option<SignedMessage>)
    requires
        forall|payload: &[u8]|
            payload@ == payload_bytes::<Message>(message, view, set_id) ==> call_requires(
                sign,
                (payload,),
            ),
    ensures
        exists|payload: &[u8], reply: Result<Option<Vec<u8>>, X>|
            {
                &&& payload@ == payload_bytes::<Message>(message, view, set_id)
                &&& #[trigger] call_ensures(sign, (payload,), reply)
                &&& r is Some <==> signature_of_reply(reply) is Some
                &&& r matches Some(signed) ==> {
                    &&& signed.message == message
                    &&& signed.id == public
                    &&& Some(signed.signature@) == signature_of_reply(reply)
                }
            },
{
    let encoded = localized_payload(view, set_id, &message);
    let reply = sign(encoded.as_slice());
    signed_by_reply(message, public, reply)
}

/// A payload belongs to one message, one view and one set: nothing that was signed for a view
/// and a set counts as signed for another.
pub proof fn law_payload_unique<E: Codec>(
    message1: E::Value,
    view1: u64,
    set_id1: SetId,
    message2: E::Value,
    view2: u64,
    set_id2: SetId,
)
    requires
        E::fits(message1),
        E::fits(message2),
        payload_bytes::<E>(message1, view1, set_id1) == payload_bytes::<E>(
            message2,
            view2,
            set_id2,
        ),
    ensures
        message1 == message2,
        view1 == view2,
        set_id1 == set_id2,
{
    let s = payload_bytes::<E>(message1, view1, set_id1);
    assert(s.subrange(0, s.len() as int) =~= s);
    assert(begins(s, s));
    <(E, (u64, u64))>::unique(
        s,
        (message1, (view1, set_id1)),
        (message2, (view2, set_id2)),
    );
}

/// What is signed is the encoding of the message, the view and the set id, whichever way it is
/// asked for and whatever the buffer held before.
pub proof fn law_payload_is_localized<E: Codec>(
    view: u64,
    set_id: SetId,
    message: E,
    buf: &mut Vec<u8>,
    r: Vec<u8>,
)
    requires
        call_ensures(localized_payload::<E>, (view, set_id, &message), r),
        call_ensures(localized_payload_with_buffer::<E>, (view, set_id, &message, buf), ()),
    ensures
        r@ == E::bytes(message.value()) + le_bytes(view as nat, 8) + le_bytes(set_id as nat, 8),
        final(buf)@ == r@,
{
    assert(r@ =~= E::bytes(message.value()) + le_bytes(view as nat, 8) + le_bytes(
        set_id as nat,
        8,
    ));
}

/// A signature counts if and only if it is one of the payload, for the view and the set, under the
/// author's key, whichever way it is checked.
pub proof fn law_signature_is_of_the_payload<E: Codec>(
    message: E,
    id: AuthorityId,
    signature: AuthoritySignature,
    view: u64,
    set_id: SetId,
    payload: Vec<u8>,
    buf: &mut Vec<u8>,
    r: bool,
    again: bool,
)
    requires
        call_ensures(localized_payload::<E>, (view, set_id, &message), payload),
        call_ensures(
            check_message_signature::<E>,
            (&message, &id, &signature, view, set_id),
            r,
        ),
        call_ensures(
            check_message_signature_with_buffer::<E>,
            (&message, &id, &signature, view, set_id, buf),
            again,
        ),
    ensures
        r == ed25519_valid(id@, payload@, signature@),
        again == r,
        final(buf)@ == payload@,
{
}

/// A message is signed if and only if the keystore answers with something of a signature's length,
/// which then is the signature; the message and the key are those given.
pub proof fn law_reply_signs<X>(
    message: Message,
    public: AuthorityId,
    reply: Result<Option<Vec<u8>>, X>,
    r: Option<SignedMessage>,
)
    requires
        call_ensures(signed_by_reply::<X>, (message, public, reply), r),
    ensures
        match reply {
            Ok(Some(bytes)) => {
                &&& r is Some <==> bytes@.len() == 64
                &&& r matches Some(signed) ==> signed.message == message && signed.id == public
                    && signed.signature@ == bytes@
            },
            _ => r is None,
        },
{
}

/// Where the keystore signs with the key, a vote that is signed for a view and a set is the vote,
/// under that key, and its signature counts for that view and that set.
pub proof fn law_signed_vote_counts<X, F: FnOnce(&[u8]) -> Result<Option<Vec<u8>>, X>>(
    sign: F,
    message: Message,
    public: AuthorityId,
    view: ViewNumber,
    set_id: SetId,
    r: Option<SignedMessage>,
    counts: bool,
)
    requires
        call_ensures(sign_message::<X, F>, (sign, message, public, view, set_id), r),
        forall|payload: &[u8], reply: Result<Option<Vec<u8>>, X>| #[trigger]
            call_ensures(sign, (payload,), reply) ==> (reply matches Ok(Some(bytes)) && bytes@.len()
                == 64 && ed25519_valid(public@, payload@, bytes@)),
        r matches Some(signed) ==> call_ensures(
            check_message_signature::<Message>,
            (&signed.message, &signed.id, &signed.signature, view, set_id),
            counts,
        ),
    ensures
        r matches Some(signed) && signed.message == message && signed.id == public,
        counts,
{
}

/// Where the keystore fails, does not hold the key, or answers with something of another length
/// than a signature's, nothing is signed.
pub proof fn law_nothing_is_signed<X, F: FnOnce(&[u8]) -> Result<Option<Vec<u8>>, X>>(
    sign: F,
    message: Message,
    public: AuthorityId,
    view: ViewNumber,
    set_id: SetId,
    r: Option<SignedMessage>,
)
    requires
        call_ensures(sign_message::<X, F>, (sign, message, public, view, set_id), r),
        forall|payload: &[u8], reply: Result<Option<Vec<u8>>, X>| #[trigger]
            call_ensures(sign, (payload,), reply) ==> !(reply matches Ok(Some(bytes))
                && bytes@.len() == 64),
    ensures
        r is None,
{
}

} // verus!
