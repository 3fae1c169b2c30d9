//! What a document holds beside messages: deletions and receipts, and the keys of all three.
use vstd::prelude::*;
use vstd::utf8::{encode_utf8, is_char_boundary};
use crate::clock::now_millis;
use crate::message::{is_message_id, message_id_form, MessageError};

verus! {

/// Why a record is refused, the first fault found.
pub open spec fn record_fault(version: int, message_id: Seq<char>) -> Option<MessageError> {
    if version != 1 {
        Some(MessageError::UnsupportedVersion(version as u8))
    } else if !message_id_form(message_id) {
        Some(MessageError::InvalidMessageId)
    } else {
        None
    }
}

fn check_record(version: u8, message_id: &str) -> (r: Result<(), MessageError>)
    ensures
        match r {
            Ok(_) => record_fault(version as int, message_id@) is None,
            Err(e) => record_fault(version as int, message_id@) == Some(e),
        },
{
    if version != 1 {
        Err(MessageError::UnsupportedVersion(version))
    } else if !is_message_id(message_id) {
        Err(MessageError::InvalidMessageId)
    } else {
        Ok(())
    }
}

/// An author's wish that a message be deleted for everyone.
#[derive(Debug)]
pub struct ReplicatedDeletion {
    pub version: u8,
    pub message_id: String,
    pub deleted_at: i64,
}

impl ReplicatedDeletion {
    /// A deletion made now.
    pub fn new(message_id: String) -> (d: ReplicatedDeletion)
        ensures
            d.version == 1,
            d.message_id@ == message_id@,
            d.deleted_at >= 0,
    {
        ReplicatedDeletion { version: 1, message_id, deleted_at: now_millis() }
    }

    /// Where the deletion is stored.
    pub fn entry_key(&self) -> (s: String)
        ensures
            s@ == "deletion/"@ + self.message_id@,
    {
        let mut s: String = "deletion/".to_owned();
        s.append(self.message_id.as_str());
        s
    }

    /// Checks a deletion that came from a document.
    pub fn validate(&self) -> (r: Result<(), MessageError>)
        ensures
            match r {
                Ok(_) => record_fault(self.version as int, self.message_id@) is None,
                Err(e) => record_fault(self.version as int, self.message_id@) == Some(e),
            },
    {
        check_record(self.version, self.message_id.as_str())
    }
}

/// A recipient's durable word that a message has arrived.
#[derive(Debug)]
pub struct ReplicatedReceipt {
    pub version: u8,
    pub message_id: String,
    pub delivered_at: i64,
}

impl ReplicatedReceipt {
    /// A receipt made now.
    pub fn new(message_id: String) -> (d: ReplicatedReceipt)
        ensures
            d.version == 1,
            d.message_id@ == message_id@,
            d.delivered_at >= 0,
    {
        ReplicatedReceipt { version: 1, message_id, delivered_at: now_millis() }
    }

    /// Where the receipt is stored.
    pub fn entry_key(&self) -> (s: String)
        ensures
            s@ == "receipt/"@ + self.message_id@,
    {
        let mut s: String = "receipt/".to_owned();
        s.append(self.message_id.as_str());
        s
    }

    /// Checks a receipt that came from a document.
    pub fn validate(&self) -> (r: Result<(), MessageError>)
        ensures
            match r {
                Ok(_) => record_fault(self.version as int, self.message_id@) is None,
                Err(e) => record_fault(self.version as int, self.message_id@) == Some(e),
            },
    {
        check_record(self.version, self.message_id.as_str())
    }
}

/// The id in the key of a receipt: `receipt/` and the 64 digits of a message id.
pub open spec fn receipt_id(key: Seq<u8>) -> Option<Seq<char>> {
    if exists|id: Seq<char>| #[trigger] message_id_form(id) && key == receipt_key_bytes(id) {
        Some(choose|id: Seq<char>| #[trigger] message_id_form(id) && key == receipt_key_bytes(id))
    } else {
        None
    }
}

/// The bytes of the key under which the receipt for `id` is stored.
pub open spec fn receipt_key_bytes(id: Seq<char>) -> Seq<u8> {
    encode_utf8("receipt/"@ + id)
}

/// Reads the message id out of the key of a receipt.
pub fn receipt_message_id_from_key(key: &[u8]) -> (r: Option<String>)
    ensures
        match r {
            Some(id) => message_id_form(id@) && key@ == receipt_key_bytes(id@),
            None => forall|id: Seq<char>| message_id_form(id) ==> key@ != #[trigger] receipt_key_bytes(id),
        },
        match r {
            Some(id) => receipt_id(key@) == Some(id@),
            None => receipt_id(key@) is None,
        },
{
    let head: [u8; 8] = [114, 101, 99, 101, 105, 112, 116, 47];
    if key.len() != 72 {
        proof {
            assert forall|id: Seq<char>| message_id_form(id) implies key@
                != #[trigger] receipt_key_bytes(id) by {
                lemma_receipt_bytes(id);
            }
        }
        return None;
    }
    let mut i: usize = 0;
    while i < 8
        invariant
            0 <= i <= 8,
            key@.len() == 72,
            head@ == seq![114u8, 101, 99, 101, 105, 112, 116, 47],
            forall|j: int| 0 <= j < i ==> key@[j] == head@[j],
        decreases 8 - i,
    {
        if key[i] != head[i] {
            proof {
                assert forall|id: Seq<char>| message_id_form(id) implies key@
                    != #[trigger] receipt_key_bytes(id) by {
                    lemma_receipt_bytes(id);
                    assert(receipt_key_bytes(id)[i as int] == head@[i as int]);
                }
            }
            return None;
        }
        i += 1;
    }
    let mut id: String = String::new();
    let mut k: usize = 8;
    while k < 72
        invariant
            8 <= k <= 72,
            key@.len() == 72,
            id@.len() == k - 8,
            forall|j: int|
                0 <= j < k - 8 ==> #[trigger] id@[j] as int == key@[j + 8] && crate::digits::is_hex_digit(
                    id@[j],
                ),
        decreases 72 - k,
    {
        let b: u8 = key[k];
        if !((48 <= b && b <= 57) || (97 <= b && b <= 102)) {
            proof {
                assert forall|id: Seq<char>| message_id_form(id) implies key@
                    != #[trigger] receipt_key_bytes(id) by {
                    lemma_receipt_bytes(id);
                    let c = id[k - 8];
                    assert(crate::digits::is_hex_digit(c));
                    assert(receipt_key_bytes(id)[k as int] == c as u8);
                }
            }
            return None;
        }
        id.push(b as char);
        k += 1;
    }
    proof {
        assert(message_id_form(id@)) by {
            assert forall|j: int| 0 <= j < id@.len() implies crate::digits::is_hex_digit(
                #[trigger] id@[j],
            ) by {}
        }
        lemma_receipt_bytes(id@);
        let want = receipt_key_bytes(id@);
        assert forall|j: int| 0 <= j < 72 implies key@[j] == want[j] by {
            if j >= 8 {
                assert(id@[j - 8] as int == key@[j]);
                assert(want[j] == id@[j - 8] as u8);
            } else {
                assert(want[j] == head@[j]);
            }
        }
        assert(key@ =~= want);
        lemma_receipt_id_unique(id@);
    }
    Some(id)
}

/// The bytes of a receipt's key, one by one.
proof fn lemma_receipt_bytes(id: Seq<char>)
    requires
        message_id_form(id),
    ensures
        receipt_key_bytes(id).len() == 72,
        forall|j: int|
            0 <= j < 8 ==> #[trigger] receipt_key_bytes(id)[j] == seq![
                114u8,
                101,
                99,
                101,
                105,
                112,
                116,
                47,
            ][j],
        forall|j: int| 8 <= j < 72 ==> #[trigger] receipt_key_bytes(id)[j] == id[j - 8] as u8,
{
    reveal_strlit("receipt/");
    let s = "receipt/"@ + id;
    assert(vstd::utf8::is_ascii_chars(s)) by {
        assert forall|i: int| 0 <= i < s.len() implies 0 <= #[trigger] s[i] as int <= 127 by {
            if i >= 8 {
                assert(crate::digits::is_hex_digit(id[i - 8]));
            }
        }
    }
    vstd::utf8::is_ascii_chars_encode_utf8(s);
}

/// No key names two messages.
proof fn lemma_receipt_id_unique(id: Seq<char>)
    requires
        message_id_form(id),
    ensures
        receipt_id(receipt_key_bytes(id)) == Some(id),
{
    let key = receipt_key_bytes(id);
    let other = choose|other: Seq<char>|
        #[trigger] message_id_form(other) && key == receipt_key_bytes(other);
    assert(message_id_form(other) && key == receipt_key_bytes(other));
    crate::text::lemma_encode_injective("receipt/"@ + id, "receipt/"@ + other);
    let a = "receipt/"@ + id;
    let b = "receipt/"@ + other;
    assert(a.skip("receipt/"@.len() as int) =~= id);
    assert(b.skip("receipt/"@.len() as int) =~= other);
}

/// The key of a receipt names its message, and only that one.
pub proof fn law_receipt_key_names_its_message(id: Seq<char>)
    requires
        message_id_form(id),
    ensures
        receipt_id(receipt_key_bytes(id)) == Some(id),
{
    lemma_receipt_id_unique(id);
}

/// At most the first 24 bytes of a value, for the log.
pub fn log_id(value: &str) -> (s: &str)
    ensures
        encode_utf8(s@) == if is_char_boundary(encode_utf8(value@), 24) {
            encode_utf8(value@).take(24)
        } else {
            encode_utf8(value@)
        },
{
    if value.is_char_boundary(24) {
        let parts = value.split_at(24);
        assert(encode_utf8(value@).subrange(0, 24) =~= encode_utf8(value@).take(24));
        parts.0
    } else {
        value
    }
}

/// A deletion or a receipt is valid exactly if it is of version 1 and names a message by 64
/// lower-case hexadecimal digits; else the first of these that it lacks is the reason.
pub proof fn law_records_are_refused_for_a_reason(version: u8, message_id: Seq<char>)
    ensures
        ({
            let named = message_id.len() == 64 && forall|i: int|
                0 <= i < 64 ==> ('0' <= #[trigger] message_id[i] <= '9' || 'a' <= message_id[i]
                    <= 'f');
            &&& record_fault(version as int, message_id) is None <==> version == 1 && named
            &&& record_fault(version as int, message_id) == Some(
                MessageError::UnsupportedVersion(version),
            ) <==> version != 1
            &&& record_fault(version as int, message_id) == Some(MessageError::InvalidMessageId)
                <==> version == 1 && !named
        }),
{
}

} // verus!
