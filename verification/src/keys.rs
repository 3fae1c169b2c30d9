//! What the keys that messages are stored under promise.
use vstd::prelude::*;
use vstd::utf8::{encode_utf8, is_ascii_chars};
use crate::digits::{
    be_bytes, decimal, digits_value, hex_lower, is_digit, lemma_be_round_trip,
    lemma_decimal_bound, lemma_decimal_is_read_back, lemma_hex_lower_digits,
    lemma_hex_lower_injective, padded_decimal, padded_signed, pow10, pow256, unsigned_bits, zeros,
};
use crate::clock::{
    drawn_apart, law_nonces_drawn_apart_differ, near, next_count, nonce_of, turns_over,
};
use crate::message::{composed, identity_bytes, sha256, AttachmentView, MessageView};
use crate::text::{bytes_lt, text_lt};

verus! {

proof fn lemma_zeros_keep_value(count: int, digits: Seq<char>)
    requires
        count >= 0,
    ensures
        digits_value(zeros(count) + digits) == digits_value(digits),
    decreases digits.len(), count,
{
    let whole = zeros(count) + digits;
    if digits.len() > 0 {
        assert(whole.drop_last() =~= zeros(count) + digits.drop_last());
        lemma_zeros_keep_value(count, digits.drop_last());
    } else if count > 0 {
        assert(whole.drop_last() =~= zeros(count - 1) + digits);
        assert(whole.last() == '0');
        lemma_zeros_keep_value(count - 1, digits);
    } else {
        assert(whole =~= digits);
    }
}

/// A padded number has the width asked for, where it fits, and writes the number in digits.
proof fn lemma_padded(n: nat, width: nat)
    requires
        n < pow10(width),
        width >= 1,
    ensures
        padded_decimal(n, width as int).len() == width,
        digits_value(padded_decimal(n, width as int)) == n,
        forall|i: int|
            0 <= i < width ==> is_digit(#[trigger] padded_decimal(n, width as int)[i]),
{
    lemma_decimal_bound(n, width);
    lemma_decimal_is_read_back(n);
    lemma_zeros_keep_value(width - decimal(n).len(), decimal(n));
    let s = padded_decimal(n, width as int);
    let fill = width - decimal(n).len();
    assert forall|i: int| 0 <= i < width implies is_digit(#[trigger] s[i]) by {
        if i < fill {
            assert(s[i] == '0');
        } else {
            assert(s[i] == decimal(n)[i - fill]);
        }
    }
}

proof fn lemma_digits_injective(a: Seq<char>, b: Seq<char>)
    requires
        a.len() == b.len(),
        forall|i: int| 0 <= i < a.len() ==> is_digit(#[trigger] a[i]),
        forall|i: int| 0 <= i < b.len() ==> is_digit(#[trigger] b[i]),
        digits_value(a) == digits_value(b),
    ensures
        a == b,
    decreases a.len(),
{
    if a.len() > 0 {
        assert(is_digit(a[a.len() - 1]) && is_digit(b[b.len() - 1]));
        assert forall|i: int| 0 <= i < a.len() - 1 implies is_digit(#[trigger] a.drop_last()[i]) by {
            assert(a.drop_last()[i] == a[i]);
        }
        assert forall|i: int| 0 <= i < b.len() - 1 implies is_digit(#[trigger] b.drop_last()[i]) by {
            assert(b.drop_last()[i] == b[i]);
        }
        lemma_digits_injective(a.drop_last(), b.drop_last());
        assert(a =~= a.drop_last().push(a.last()));
        assert(b =~= b.drop_last().push(b.last()));
    } else {
        assert(a =~= b);
    }
}

proof fn lemma_pow10_nineteen()
    ensures
        pow10(19) == 10_000_000_000_000_000_000,
        pow10(20) == 100_000_000_000_000_000_000,
{
    reveal_with_fuel(pow10, 22);
}

/// The time in a key has twenty characters and is the key's time alone.
proof fn lemma_time(n: int)
    requires
        i64::MIN <= n <= i64::MAX,
    ensures
        padded_signed(n, 20).len() == 20,
        n >= 0 ==> is_digit(padded_signed(n, 20)[0]),
        n < 0 ==> padded_signed(n, 20)[0] == '-',
{
    lemma_pow10_nineteen();
    if n < 0 {
        lemma_padded((-n) as nat, 19);
    } else {
        lemma_padded(n as nat, 20);
    }
}

proof fn lemma_times_differ(m: int, n: int)
    requires
        i64::MIN <= m <= i64::MAX,
        i64::MIN <= n <= i64::MAX,
        padded_signed(m, 20) == padded_signed(n, 20),
    ensures
        m == n,
{
    lemma_pow10_nineteen();
    lemma_time(m);
    lemma_time(n);
    if m < 0 && n < 0 {
        lemma_padded((-m) as nat, 19);
        lemma_padded((-n) as nat, 19);
        assert(padded_signed(m, 20).skip(1) =~= padded_decimal((-m) as nat, 19));
        assert(padded_signed(n, 20).skip(1) =~= padded_decimal((-n) as nat, 19));
    } else if m >= 0 && n >= 0 {
        lemma_padded(m as nat, 20);
        lemma_padded(n as nat, 20);
    }
}

/// Messages that differ in time, author or nonce are stored under different keys.
pub proof fn law_keys_are_unique(a: MessageView, b: MessageView)
    requires
        i64::MIN <= a.sent_at <= i64::MAX,
        i64::MIN <= b.sent_at <= i64::MAX,
        0 <= a.nonce <= u64::MAX,
        0 <= b.nonce <= u64::MAX,
    ensures
        a.key() == b.key() <==> a.sent_at == b.sent_at && a.author_id == b.author_id && a.nonce
            == b.nonce,
{
    if a.key() == b.key() {
        reveal_strlit("message/");
        reveal_strlit("/");
        lemma_time(a.sent_at);
        lemma_time(b.sent_at);
        let ha = be_bytes(a.nonce as nat, 8);
        let hb = be_bytes(b.nonce as nat, 8);
        assert(pow256(8) == 0x1_0000_0000_0000_0000) by {
            reveal_with_fuel(pow256, 9);
        }
        lemma_be_round_trip(a.nonce as nat, 8);
        lemma_be_round_trip(b.nonce as nat, 8);
        lemma_hex_lower_digits(ha);
        lemma_hex_lower_digits(hb);
        assert(a.key().len() == 8 + 20 + 1 + a.author_id.len() + 1 + 16);
        assert(b.key().len() == 8 + 20 + 1 + b.author_id.len() + 1 + 16);
        let n = a.author_id.len() as int;
        assert(a.key().subrange(8, 28) =~= padded_signed(a.sent_at, 20));
        assert(b.key().subrange(8, 28) =~= padded_signed(b.sent_at, 20));
        assert(a.key().subrange(29, 29 + n) =~= a.author_id);
        assert(b.key().subrange(29, 29 + n) =~= b.author_id);
        assert(a.key().skip(30 + n) =~= hex_lower(ha));
        assert(b.key().skip(30 + n) =~= hex_lower(hb));
        lemma_times_differ(a.sent_at, b.sent_at);
        lemma_hex_lower_injective(ha, hb);
    }
}

/// What ids are drawn from differs where the time or the nonce does.
proof fn lemma_identities_differ(
    author: Seq<u8>,
    times: (i64, i64),
    nonces: (u64, u64),
    bodies: (Seq<char>, Seq<char>),
)
    requires
        identity_bytes(author, times.0 as int, nonces.0 as nat, bodies.0) == identity_bytes(
            author,
            times.1 as int,
            nonces.1 as nat,
            bodies.1,
        ),
    ensures
        times.0 == times.1,
        nonces.0 == nonces.1,
{
    assert(pow256(8) == 0x1_0000_0000_0000_0000) by {
        reveal_with_fuel(pow256, 9);
    }
    let n = author.len() as int;
    let a = identity_bytes(author, times.0 as int, nonces.0 as nat, bodies.0);
    let b = identity_bytes(author, times.1 as int, nonces.1 as nat, bodies.1);
    lemma_be_round_trip(unsigned_bits(times.0 as int), 8);
    lemma_be_round_trip(unsigned_bits(times.1 as int), 8);
    lemma_be_round_trip(nonces.0 as nat, 8);
    lemma_be_round_trip(nonces.1 as nat, 8);
    assert(a.subrange(n, n + 8) =~= be_bytes(unsigned_bits(times.0 as int), 8));
    assert(b.subrange(n, n + 8) =~= be_bytes(unsigned_bits(times.1 as int), 8));
    assert(a.subrange(n + 8, n + 16) =~= be_bytes(nonces.0 as nat, 8));
    assert(b.subrange(n + 8, n + 16) =~= be_bytes(nonces.1 as nat, 8));
}

/// Two messages of an author are kept apart where they were sent in different milliseconds, or
/// their nonces were drawn apart, as those of two messages in a row are: they are stored under
/// different keys, and their ids are drawn from different bytes, so they differ unless the
/// digests of those bytes are the same.
pub proof fn law_messages_are_kept_apart(
    author: Seq<u8>,
    times: (i64, i64),
    nanos: (u128, u128),
    counts: (u64, u64),
    bodies: (Seq<char>, Seq<char>),
    attachments: (Seq<AttachmentView>, Seq<AttachmentView>),
)
    requires
        times.0 != times.1 || drawn_apart(nanos, counts),
    ensures
        ({
            let nonces = (nonce_of(nanos.0, counts.0), nonce_of(nanos.1, counts.1));
            let first = composed(author, bodies.0, attachments.0, times.0 as int, nonces.0 as nat);
            let second = composed(author, bodies.1, attachments.1, times.1 as int, nonces.1 as nat);
            let drawn = (
                identity_bytes(author, times.0 as int, nonces.0 as nat, bodies.0),
                identity_bytes(author, times.1 as int, nonces.1 as nat, bodies.1),
            );
            &&& first.key() != second.key()
            &&& first.key().take(8) == "message/"@
            &&& second.key().take(8) == "message/"@
            &&& drawn.0 != drawn.1
            &&& first.message_id == second.message_id <==> sha256(drawn.0) == sha256(drawn.1)
        }),
{
    let nonces = (nonce_of(nanos.0, counts.0), nonce_of(nanos.1, counts.1));
    let first = composed(author, bodies.0, attachments.0, times.0 as int, nonces.0 as nat);
    let second = composed(author, bodies.1, attachments.1, times.1 as int, nonces.1 as nat);
    if times.0 == times.1 {
        law_nonces_drawn_apart_differ(nanos, counts);
    }
    law_keys_are_unique(first, second);
    reveal_strlit("message/");
    assert(first.key().take(8) =~= "message/"@);
    assert(second.key().take(8) =~= "message/"@);
    let drawn = (
        identity_bytes(author, times.0 as int, nonces.0 as nat, bodies.0),
        identity_bytes(author, times.1 as int, nonces.1 as nat, bodies.1),
    );
    if drawn.0 == drawn.1 {
        lemma_identities_differ(author, times, nonces, bodies);
    }
    if first.message_id == second.message_id {
        lemma_hex_lower_injective(sha256(drawn.0), sha256(drawn.1));
    }
}

/// Two messages in a row of one author and one source of nonces are stored under different keys,
/// and their ids are drawn from different bytes: it does not matter whether the clock has moved
/// between them. Left out are the two counts at which all bits turn over, and a clock that shows
/// the same millisecond while its readings in nanoseconds are 19 hours apart.
pub proof fn law_messages_in_a_row_are_kept_apart(
    author: Seq<u8>,
    times: (i64, i64),
    nanos: (u128, u128),
    count: u64,
    bodies: (Seq<char>, Seq<char>),
)
    requires
        times.0 == times.1 ==> near(nanos.0, nanos.1) && !turns_over(count),
    ensures
        ({
            let nonces = (nonce_of(nanos.0, count), nonce_of(nanos.1, next_count(count)));
            let first = composed(author, bodies.0, Seq::empty(), times.0 as int, nonces.0 as nat);
            let second = composed(author, bodies.1, Seq::empty(), times.1 as int, nonces.1 as nat);
            let drawn = (
                identity_bytes(author, times.0 as int, nonces.0 as nat, bodies.0),
                identity_bytes(author, times.1 as int, nonces.1 as nat, bodies.1),
            );
            &&& first.key() != second.key()
            &&& drawn.0 != drawn.1
            &&& first.message_id == second.message_id <==> sha256(drawn.0) == sha256(drawn.1)
        }),
{
    law_messages_are_kept_apart(
        author,
        times,
        nanos,
        (count, next_count(count)),
        bodies,
        (Seq::empty(), Seq::empty()),
    );
}

// ---------------------------------------------------------------------------
// Order
// ---------------------------------------------------------------------------

proof fn lemma_common_start(start: Seq<u8>, a: Seq<u8>, b: Seq<u8>)
    ensures
        bytes_lt(start + a, start + b) == bytes_lt(a, b),
    decreases start.len(),
{
    if start.len() == 0 {
        assert(start + a =~= a);
        assert(start + b =~= b);
    } else {
        assert((start + a).drop_first() =~= start.drop_first() + a);
        assert((start + b).drop_first() =~= start.drop_first() + b);
        lemma_common_start(start.drop_first(), a, b);
    }
}

proof fn lemma_lt_extends(a: Seq<u8>, b: Seq<u8>, x: Seq<u8>, y: Seq<u8>)
    requires
        a.len() == b.len(),
        bytes_lt(a, b),
    ensures
        bytes_lt(a + x, b + y),
    decreases a.len(),
{
    if a.len() > 0 && a[0] == b[0] {
        assert((a + x).drop_first() =~= a.drop_first() + x);
        assert((b + y).drop_first() =~= b.drop_first() + y);
        lemma_lt_extends(a.drop_first(), b.drop_first(), x, y);
    }
}

/// The bytes of two texts stand one after the other.
proof fn lemma_encode_parts(a: Seq<char>, b: Seq<char>)
    ensures
        encode_utf8(a + b) == encode_utf8(a) + encode_utf8(b),
    decreases a.len(),
{
    if a.len() == 0 {
        assert(a + b =~= b);
        assert(encode_utf8(a) =~= Seq::empty());
    } else {
        assert((a + b).drop_first() =~= a.drop_first() + b);
        lemma_encode_parts(a.drop_first(), b);
        assert(encode_utf8(a + b) =~= encode_utf8(a) + encode_utf8(b));
    }
}

/// Of two numbers written with the same count of digits, the smaller comes first.
proof fn lemma_digits_order(a: Seq<char>, b: Seq<char>)
    requires
        a.len() == b.len(),
        forall|i: int| 0 <= i < a.len() ==> is_digit(#[trigger] a[i]),
        forall|i: int| 0 <= i < b.len() ==> is_digit(#[trigger] b[i]),
        digits_value(a) < digits_value(b),
    ensures
        encode_utf8(a).len() == a.len(),
        encode_utf8(b).len() == b.len(),
        text_lt(a, b),
    decreases a.len(),
{
    assert(is_ascii_chars(a));
    assert(is_ascii_chars(b));
    vstd::utf8::is_ascii_chars_encode_utf8(a);
    vstd::utf8::is_ascii_chars_encode_utf8(b);
    if a.len() > 0 {
        let ra = a.drop_last();
        let rb = b.drop_last();
        let la = seq![a.last()];
        let lb = seq![b.last()];
        assert(is_digit(a[a.len() - 1]) && is_digit(b[b.len() - 1]));
        assert forall|i: int| 0 <= i < ra.len() implies is_digit(#[trigger] ra[i]) by {
            assert(ra[i] == a[i]);
        }
        assert forall|i: int| 0 <= i < rb.len() implies is_digit(#[trigger] rb[i]) by {
            assert(rb[i] == b[i]);
        }
        assert(a =~= ra + la);
        assert(b =~= rb + lb);
        lemma_encode_parts(ra, la);
        lemma_encode_parts(rb, lb);
        if digits_value(ra) < digits_value(rb) {
            lemma_digits_order(ra, rb);
            lemma_lt_extends(encode_utf8(ra), encode_utf8(rb), encode_utf8(la), encode_utf8(lb));
        } else {
            lemma_digits_injective(ra, rb);
            assert(is_ascii_chars(la));
            assert(is_ascii_chars(lb));
            vstd::utf8::is_ascii_chars_encode_utf8(la);
            vstd::utf8::is_ascii_chars_encode_utf8(lb);
            assert(encode_utf8(la)[0] as int == a.last() as int);
            assert(encode_utf8(lb)[0] as int == b.last() as int);
            lemma_common_start(encode_utf8(ra), encode_utf8(la), encode_utf8(lb));
        }
    }
}

/// Of two messages, none of them from before 1970, the earlier is stored under the smaller key.
pub proof fn law_keys_follow_time(a: MessageView, b: MessageView)
    requires
        0 <= a.sent_at < b.sent_at <= i64::MAX,
    ensures
        text_lt(a.key(), b.key()),
{
    lemma_pow10_nineteen();
    lemma_padded(a.sent_at as nat, 20);
    lemma_padded(b.sent_at as nat, 20);
    let start = "message/"@;
    let ta = padded_signed(a.sent_at, 20);
    let tb = padded_signed(b.sent_at, 20);
    let ra = "/"@ + a.author_id + "/"@ + hex_lower(be_bytes(a.nonce as nat, 8));
    let rb = "/"@ + b.author_id + "/"@ + hex_lower(be_bytes(b.nonce as nat, 8));
    assert(a.key() =~= start + (ta + ra));
    assert(b.key() =~= start + (tb + rb));
    lemma_digits_order(ta, tb);
    lemma_encode_parts(ta, ra);
    lemma_encode_parts(tb, rb);
    lemma_encode_parts(start, ta + ra);
    lemma_encode_parts(start, tb + rb);
    lemma_lt_extends(encode_utf8(ta), encode_utf8(tb), encode_utf8(ra), encode_utf8(rb));
    lemma_common_start(encode_utf8(start), encode_utf8(ta + ra), encode_utf8(tb + rb));
}

} // verus!
