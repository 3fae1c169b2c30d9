//! Messages, what is kept of them, and the conversations they belong to.
use std::sync::Arc;
use sha2::Digest;
use vstd::prelude::*;
use vstd::utf8::encode_utf8;
use crate::clock::{next_count, nonce_of, now_millis, NonceSource};
use crate::digits::{
    be_bytes, bits_of, decimal, hex_bytes, hex_lower, is_hex_digit, lemma_hex_lower_digits,
    padded_signed, push_be, push_decimal, push_hex16, push_padded_signed, unsigned_bits,
};
use crate::node::NodeId;
use crate::text::{chars_of, relate_text, text_lt, trim, trimmed, Relation};

verus! {

/// The largest body of a message, in bytes.
pub const MAX_MESSAGE_BYTES: usize = 1_048_576;

/// The milliseconds of a day.
pub const DAY_MS: i64 = 86_400_000;

// ---------------------------------------------------------------------------
// Retention
// ---------------------------------------------------------------------------

/// How long messages stay visible on this device.
#[derive(Debug, Clone, Copy, PartialEq, Eq, Structural)]
pub enum RetentionPolicy {
    Unlimited,
    Days(u32),
}

impl Default for RetentionPolicy {
    fn default() -> (policy: Self)
        ensures
            policy == RetentionPolicy::Unlimited,
    {
        RetentionPolicy::Unlimited
    }
}

/// The earliest stamp that is still within `days` of `now`.
pub open spec fn keep_from(days: int, now: int) -> int {
    let from = now - days * DAY_MS;
    if from < i64::MIN {
        i64::MIN as int
    } else {
        from
    }
}

impl RetentionPolicy {
    /// Whether a message of this time is shown.
    pub open spec fn shows(self, sent_at: int, now: int) -> bool {
        match self {
            RetentionPolicy::Unlimited => true,
            RetentionPolicy::Days(days) => sent_at >= keep_from(days as int, now),
        }
    }

    /// The policy in words.
    pub open spec fn words(self) -> Seq<char> {
        match self {
            RetentionPolicy::Unlimited => "Unlimited"@,
            RetentionPolicy::Days(days) => "Last "@ + decimal(days as nat) + " days"@,
        }
    }

    /// Whether a message sent at `sent_at` is shown at `now`.
    pub fn includes(self, sent_at: i64, now: i64) -> (r: bool)
        ensures
            r == self.shows(sent_at as int, now as int),
    {
        match self {
            RetentionPolicy::Unlimited => true,
            RetentionPolicy::Days(days) => {
                let keep: i64 = days as i64 * 86_400_000;
                let from: i64 = if now < i64::MIN + keep {
                    i64::MIN
                } else {
                    now - keep
                };
                sent_at >= from
            },
        }
    }

    /// The policy as the settings show it.
    pub fn label(self) -> (s: String)
        ensures
            s@ == self.words(),
    {
        match self {
            RetentionPolicy::Unlimited => "Unlimited".to_owned(),
            RetentionPolicy::Days(days) => {
                let mut s: String = "Last ".to_owned();
                push_decimal(&mut s, days as u64);
                s.append(" days");
                s
            },
        }
    }
}

/// What a longer policy hides, a shorter one hides too.
pub proof fn law_longer_retention_shows_more(fewer: u32, more: u32, sent_at: i64, now: i64)
    requires
        fewer <= more,
        RetentionPolicy::Days(fewer).shows(sent_at as int, now as int),
    ensures
        RetentionPolicy::Days(more).shows(sent_at as int, now as int),
        RetentionPolicy::Unlimited.shows(sent_at as int, now as int),
{
    assert(fewer * DAY_MS <= more * DAY_MS) by (nonlinear_arith)
        requires
            fewer <= more,
    ;
}

// ---------------------------------------------------------------------------
// Message identities
// ---------------------------------------------------------------------------

/// Whether `s` has the form of a message id: 64 lower-case hexadecimal digits.
pub open spec fn message_id_form(s: Seq<char>) -> bool {
    s.len() == 64 && forall|i: int| 0 <= i < s.len() ==> is_hex_digit(#[trigger] s[i])
}

/// Whether `value` has the form of a message id.
pub fn is_message_id(value: &str) -> (r: bool)
    ensures
        r == message_id_form(value@),
{
    let v = chars_of(value);
    if v.len() != 64 {
        return false;
    }
    let mut i: usize = 0;
    while i < v.len()
        invariant
            0 <= i <= v@.len(),
            v@ == value@,
            forall|j: int| 0 <= j < i ==> is_hex_digit(#[trigger] v@[j]),
        decreases v@.len() - i,
    {
        let c: char = v[i];
        if !(('0' <= c && c <= '9') || ('a' <= c && c <= 'f')) {
            assert(!is_hex_digit(v@[i as int]));
            return false;
        }
        i += 1;
    }
    true
}

/// The SHA-256 digest of `data`.
pub uninterp spec fn sha256(data: Seq<u8>) -> Seq<u8>;

/// `sha2::Sha256::digest`. The contract claims that the 32 bytes depend on the data alone.
#[verifier::external_body]
fn digest(data: &[u8]) -> (d: [u8; 32])
    ensures
        d@ == sha256(data@),
{
    sha2::Sha256::digest(data).into()
}

/// What the id of a message is drawn from: author, time, nonce and body.
pub open spec fn identity_bytes(author: Seq<u8>, sent_at: int, nonce: nat, body: Seq<char>) -> Seq<
    u8,
> {
    author + be_bytes(unsigned_bits(sent_at), 8) + be_bytes(nonce, 8) + encode_utf8(body)
}

/// The id of a message.
pub open spec fn message_id_of(author: Seq<u8>, sent_at: int, nonce: nat, body: Seq<char>) -> Seq<
    char,
> {
    hex_lower(sha256(identity_bytes(author, sent_at, nonce, body)))
}

// ---------------------------------------------------------------------------
// Attachments
// ---------------------------------------------------------------------------

/// An image that goes with a message. `hash` names its bytes.
#[derive(Debug, PartialEq, Eq)]
pub struct ChatAttachment {
    pub id: String,
    pub name: String,
    pub media_type: String,
    pub byte_len: u64,
    pub width: u32,
    pub height: u32,
    pub hash: String,
    pub data: Option<Arc<Vec<u8>>>,
}

/// The contents of a `ChatAttachment`.
pub struct AttachmentView {
    pub id: Seq<char>,
    pub name: Seq<char>,
    pub media_type: Seq<char>,
    pub byte_len: int,
    pub width: int,
    pub height: int,
    pub hash: Seq<char>,
    pub data: Option<Arc<Vec<u8>>>,
}

impl View for ChatAttachment {
    type V = AttachmentView;

    open spec fn view(&self) -> AttachmentView {
        AttachmentView {
            id: self.id@,
            name: self.name@,
            media_type: self.media_type@,
            byte_len: self.byte_len as int,
            width: self.width as int,
            height: self.height as int,
            hash: self.hash@,
            data: self.data,
        }
    }
}

/// `Arc::clone`: another handle to the same value.
#[verifier::external_body]
pub(crate) fn share(data: &Arc<Vec<u8>>) -> (r: Arc<Vec<u8>>)
    ensures
        r == *data,
{
    Arc::clone(data)
}

/// Another handle to the same bytes, where there are any.
pub fn share_data(data: &Option<Arc<Vec<u8>>>) -> (r: Option<Arc<Vec<u8>>>)
    ensures
        r == *data,
{
    match data {
        Some(bytes) => Some(share(bytes)),
        None => None,
    }
}

impl Clone for ChatAttachment {
    fn clone(&self) -> (r: Self)
        ensures
            r@ == self@,
    {
        ChatAttachment {
            id: self.id.clone(),
            name: self.name.clone(),
            media_type: self.media_type.clone(),
            byte_len: self.byte_len,
            width: self.width,
            height: self.height,
            hash: self.hash.clone(),
            data: share_data(&self.data),
        }
    }
}

/// The contents of a list of attachments.
pub open spec fn attachment_views(v: Seq<ChatAttachment>) -> Seq<AttachmentView> {
    Seq::new(v.len(), |i: int| v[i]@)
}

/// A copy of a list of attachments.
pub fn copy_attachments(list: &Vec<ChatAttachment>) -> (r: Vec<ChatAttachment>)
    ensures
        attachment_views(r@) == attachment_views(list@),
{
    let mut r: Vec<ChatAttachment> = Vec::new();
    let mut i: usize = 0;
    while i < list.len()
        invariant
            0 <= i <= list@.len(),
            r@.len() == i,
            forall|j: int| 0 <= j < i ==> #[trigger] r@[j]@ == list@[j]@,
        decreases list@.len() - i,
    {
        r.push(list[i].clone());
        i += 1;
    }
    assert(attachment_views(r@) =~= attachment_views(list@));
    r
}

// ---------------------------------------------------------------------------
// Messages
// ---------------------------------------------------------------------------

/// How a message was deleted on this device.
#[derive(Debug, Clone, Copy, PartialEq, Eq, Structural)]
pub enum MessageDeletion {
    Local,
    Everyone,
}

/// For whom a message is to be deleted.
#[derive(Debug, Clone, Copy, PartialEq, Eq, Structural)]
pub enum DeleteScope {
    Local,
    Everyone,
}

/// A message. Its deletion is known to this device only and no part of what is replicated.
#[derive(Debug, PartialEq, Eq)]
pub struct ChatMessage {
    pub version: u8,
    pub message_id: String,
    pub author_id: String,
    pub sent_at: i64,
    pub body: String,
    pub nonce: u64,
    pub client_version: Option<String>,
    pub attachments: Vec<ChatAttachment>,
    pub deletion: Option<MessageDeletion>,
}

/// The contents of a `ChatMessage`.
pub struct MessageView {
    pub version: int,
    pub message_id: Seq<char>,
    pub author_id: Seq<char>,
    pub sent_at: int,
    pub body: Seq<char>,
    pub nonce: int,
    pub client_version: Option<Seq<char>>,
    pub attachments: Seq<AttachmentView>,
    pub deletion: Option<MessageDeletion>,
}

/// The contents of an optional string.
pub open spec fn opt_text(t: Option<String>) -> Option<Seq<char>> {
    match t {
        Some(s) => Some(s@),
        None => None,
    }
}

/// A copy of an optional string.
pub fn copy_opt_text(t: &Option<String>) -> (r: Option<String>)
    ensures
        opt_text(r) == opt_text(*t),
        r == *t,
{
    match t {
        Some(s) => Some(s.clone()),
        None => None,
    }
}

impl View for ChatMessage {
    type V = MessageView;

    open spec fn view(&self) -> MessageView {
        MessageView {
            version: self.version as int,
            message_id: self.message_id@,
            author_id: self.author_id@,
            sent_at: self.sent_at as int,
            body: self.body@,
            nonce: self.nonce as int,
            client_version: opt_text(self.client_version),
            attachments: attachment_views(self.attachments@),
            deletion: self.deletion,
        }
    }
}

impl Clone for ChatMessage {
    fn clone(&self) -> (r: Self)
        ensures
            r@ == self@,
    {
        ChatMessage {
            version: self.version,
            message_id: self.message_id.clone(),
            author_id: self.author_id.clone(),
            sent_at: self.sent_at,
            body: self.body.clone(),
            nonce: self.nonce,
            client_version: copy_opt_text(&self.client_version),
            attachments: copy_attachments(&self.attachments),
            deletion: self.deletion,
        }
    }
}

/// What is wrong with a message, a deletion or a receipt.
#[derive(Debug, Clone, Copy, PartialEq, Eq, Structural)]
pub enum MessageError {
    UnsupportedVersion(u8),
    Empty,
    TooLarge,
    IncompleteIdentity,
    InvalidMessageId,
}

/// The contents of the message that a peer makes at a time.
pub open spec fn composed(
    author: Seq<u8>,
    body: Seq<char>,
    attachments: Seq<AttachmentView>,
    sent_at: int,
    nonce: nat,
) -> MessageView {
    MessageView {
        version: 1,
        message_id: message_id_of(author, sent_at, nonce, body),
        author_id: hex_lower(author),
        sent_at,
        body,
        nonce: nonce as int,
        client_version: None,
        attachments,
        deletion: None,
    }
}

/// What is wrong with a body.
pub open spec fn body_fault(body: Seq<char>) -> Option<MessageError> {
    if trimmed(body).len() == 0 {
        Some(MessageError::Empty)
    } else if encode_utf8(body).len() > MAX_MESSAGE_BYTES {
        Some(MessageError::TooLarge)
    } else {
        None
    }
}

impl MessageView {
    /// What is wrong with the message, the first fault found.
    pub open spec fn fault(self) -> Option<MessageError> {
        if self.version != 1 {
            Some(MessageError::UnsupportedVersion(self.version as u8))
        } else if trimmed(self.body).len() == 0 {
            Some(MessageError::Empty)
        } else if encode_utf8(self.body).len() > MAX_MESSAGE_BYTES {
            Some(MessageError::TooLarge)
        } else if !message_id_form(self.message_id) || self.author_id.len() == 0 {
            Some(MessageError::IncompleteIdentity)
        } else {
            None
        }
    }

    /// Where the message is stored: ordered by time, and different for different nonces.
    pub open spec fn key(self) -> Seq<char> {
        "message/"@ + padded_signed(self.sent_at, 20) + "/"@ + self.author_id + "/"@ + hex_lower(
            be_bytes(self.nonce as nat, 8),
        )
    }

    /// Whether this message comes before the other: by time, then author, nonce and id.
    pub open spec fn precedes(self, other: MessageView) -> bool {
        if self.sent_at != other.sent_at {
            self.sent_at < other.sent_at
        } else if self.author_id != other.author_id {
            text_lt(self.author_id, other.author_id)
        } else if self.nonce != other.nonce {
            self.nonce < other.nonce
        } else {
            text_lt(self.message_id, other.message_id)
        }
    }

    /// Whether both stand at the same place in that order.
    pub open spec fn ties(self, other: MessageView) -> bool {
        self.sent_at == other.sent_at && self.author_id == other.author_id && self.nonce
            == other.nonce && self.message_id == other.message_id
    }
}

impl ChatMessage {
    /// The message that `author` makes at `sent_at` with this nonce.
    pub fn compose(
        author: NodeId,
        body: String,
        attachments: Vec<ChatAttachment>,
        sent_at: i64,
        nonce: u64,
    ) -> (m: ChatMessage)
        ensures
            m@ == composed(author@, body@, attachment_views(attachments@), sent_at as int, nonce as nat),
            message_id_form(m.message_id@),
            m@.fault() == body_fault(body@),
    {
        let mut data: Vec<u8> = Vec::new();
        let key = author.to_bytes();
        data.extend_from_slice(key.as_slice());
        assert(data@ =~= author@);
        push_be(&mut data, bits_of(sent_at), 8);
        push_be(&mut data, nonce, 8);
        let ghost head = data@;
        data.extend_from_slice(body.as_str().as_bytes());
        assert(data@ =~= head + encode_utf8(body@));
        assert(data@ =~= identity_bytes(author@, sent_at as int, nonce as nat, body@));
        let id = digest(data.as_slice());
        proof {
            law_digest_digits_form_an_id(id@);
        }
        ChatMessage {
            version: 1,
            message_id: hex_bytes(id.as_slice()),
            author_id: author.to_text(),
            sent_at,
            body,
            nonce,
            client_version: None,
            attachments,
            deletion: None,
        }
    }

    /// A message made now.
    pub fn new(author_id: NodeId, body: String, nonces: &mut NonceSource) -> (m: ChatMessage)
        ensures
            m@ == composed(author_id@, body@, Seq::empty(), m.sent_at as int, m.nonce as nat),
            m.sent_at >= 0,
            message_id_form(m.message_id@),
            m@.fault() == body_fault(body@),
            final(nonces).count() == next_count(old(nonces).count()),
            exists|nanos: u128| m.nonce == #[trigger] nonce_of(nanos, old(nonces).count()),
    {
        let m = ChatMessage::new_with_attachments(author_id, body, Vec::new(), nonces);
        assert(m@.attachments =~= Seq::empty());
        m
    }

    /// A message made now, with attachments.
    pub fn new_with_attachments(
        author_id: NodeId,
        body: String,
        attachments: Vec<ChatAttachment>,
        nonces: &mut NonceSource,
    ) -> (m: ChatMessage)
        ensures
            m@ == composed(
                author_id@,
                body@,
                attachment_views(attachments@),
                m.sent_at as int,
                m.nonce as nat,
            ),
            m.sent_at >= 0,
            message_id_form(m.message_id@),
            m@.fault() == body_fault(body@),
            final(nonces).count() == next_count(old(nonces).count()),
            exists|nanos: u128| m.nonce == #[trigger] nonce_of(nanos, old(nonces).count()),
    {
        let sent_at: i64 = now_millis();
        let nonce: u64 = nonces.next_nonce();
        ChatMessage::compose(author_id, body, attachments, sent_at, nonce)
    }

    /// Where the message is stored.
    pub fn entry_key(&self) -> (s: String)
        ensures
            s@ == self@.key(),
    {
        let mut s: String = "message/".to_owned();
        push_padded_signed(&mut s, self.sent_at, 20);
        s.append("/");
        s.append(self.author_id.as_str());
        s.append("/");
        push_hex16(&mut s, self.nonce);
        s
    }

    /// Checks a message that came from a document.
    pub fn validate(&self) -> (r: Result<(), MessageError>)
        ensures
            match r {
                Ok(_) => self@.fault() is None,
                Err(e) => self@.fault() == Some(e),
            },
    {
        if self.version != 1 {
            return Err(MessageError::UnsupportedVersion(self.version));
        }
        let body = trim(self.body.as_str());
        if body.as_str().is_empty() {
            return Err(MessageError::Empty);
        }
        if self.body.as_str().as_bytes().len() > MAX_MESSAGE_BYTES {
            return Err(MessageError::TooLarge);
        }
        if !is_message_id(self.message_id.as_str()) || self.author_id.as_str().is_empty() {
            return Err(MessageError::IncompleteIdentity);
        }
        Ok(())
    }

    /// How two messages stand to each other in a timeline.
    pub fn relate(&self, other: &ChatMessage) -> (r: Relation)
        ensures
            r == if self@.precedes(other@) {
                Relation::Before
            } else if self@.ties(other@) {
                Relation::Same
            } else {
                Relation::After
            },
    {
        proof {
            crate::text::lemma_text_lt_total(self.author_id@, other.author_id@);
        }
        if self.sent_at != other.sent_at {
            if self.sent_at < other.sent_at {
                Relation::Before
            } else {
                Relation::After
            }
        } else {
            match relate_text(self.author_id.as_str(), other.author_id.as_str()) {
                Relation::Same => if self.nonce != other.nonce {
                    if self.nonce < other.nonce {
                        Relation::Before
                    } else {
                        Relation::After
                    }
                } else {
                    relate_text(self.message_id.as_str(), other.message_id.as_str())
                },
                other_relation => other_relation,
            }
        }
    }
}

/// The digits of 32 bytes form a message id.
pub proof fn law_digest_digits_form_an_id(digest: Seq<u8>)
    requires
        digest.len() == 32,
    ensures
        message_id_form(hex_lower(digest)),
{
    lemma_hex_lower_digits(digest);
}

/// A policy of some days shows a message sent within so many times 24 hours, and no older one.
pub proof fn law_retention_counts_days(days: u32, sent_at: i64, now: i64)
    requires
        now >= 0,
    ensures
        RetentionPolicy::Days(days).shows(sent_at as int, now as int) <==> now - sent_at <= days
            * 86_400_000,
        RetentionPolicy::Unlimited.shows(sent_at as int, now as int),
{
}

/// A message of version 1 with something in its body, at most one mebibyte of it, an id of 64
/// digits and an author is valid; any other is refused for the first of these that it lacks.
pub proof fn law_messages_are_refused_for_a_reason(m: MessageView)
    requires
        0 <= m.version <= 255,
    ensures
        ({
            let fits = encode_utf8(m.body).len() <= 1_048_576;
            let written = trimmed(m.body).len() > 0;
            let named = m.message_id.len() == 64 && (forall|i: int|
                0 <= i < 64 ==> ('0' <= #[trigger] m.message_id[i] <= '9' || 'a' <= m.message_id[i]
                    <= 'f')) && m.author_id.len() > 0;
            &&& m.fault() is None <==> m.version == 1 && written && fits && named
            &&& m.fault() == Some(MessageError::UnsupportedVersion(m.version as u8)) <==> m.version
                != 1
            &&& m.fault() == Some(MessageError::Empty) <==> m.version == 1 && !written
            &&& m.fault() == Some(MessageError::TooLarge) <==> m.version == 1 && written && !fits
            &&& m.fault() == Some(MessageError::IncompleteIdentity) <==> m.version == 1 && written
                && fits && !named
        }),
{
}

/// A message that a peer makes is its own, says what was written with what was attached, is not
/// deleted, and is named after its author, time, nonce and body alone.
pub proof fn law_composed_messages_say_what_was_written(
    author: Seq<u8>,
    body: Seq<char>,
    attachments: Seq<AttachmentView>,
    others: Seq<AttachmentView>,
    sent_at: int,
    nonce: nat,
)
    ensures
        ({
            let m = composed(author, body, attachments, sent_at, nonce);
            &&& m.version == 1
            &&& m.author_id == hex_lower(author)
            &&& m.body == body
            &&& m.attachments == attachments
            &&& m.sent_at == sent_at
            &&& m.nonce == nonce
            &&& m.deletion is None
            &&& m.message_id == composed(author, body, others, sent_at, nonce).message_id
        }),
{
}

} // verus!
