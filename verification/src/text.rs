//! Text: numbers and bytes as characters, trimming, comparison and shortening.
use vstd::prelude::*;
use vstd::utf8::encode_utf8;

verus! {

/// `String::push`: appends one character.
pub assume_specification[ String::push ](s: &mut String, c: char)
    ensures
        final(s)@ == old(s)@.push(c),
;

/// `i64::div_euclid`: the quotient of Euclidean division.
pub assume_specification[ i64::div_euclid ](a: i64, b: i64) -> (q: i64)
    requires
        b > 0,
    ensures
        q == (a as int) / (b as int),
;

/// `i64::rem_euclid`: the least nonnegative remainder.
pub assume_specification[ i64::rem_euclid ](a: i64, b: i64) -> (r: i64)
    requires
        b > 0,
    ensures
        r == (a as int) % (b as int),
;

// ---------------------------------------------------------------------------
// Characters and their sequences
// ---------------------------------------------------------------------------

/// The characters of a string, in order.
pub fn chars_of(s: &str) -> (v: Vec<char>)
    ensures
        v@ == s@,
{
    let mut v: Vec<char> = Vec::new();
    for c in it: s.chars()
        invariant
            it.seq() == s@,
            v@ == it.seq().take(it.index() as int),
    {
        v.push(c);
    }
    v
}

/// Appends the characters `from..to` of `chars` to `out`.
pub fn push_chars(out: &mut String, chars: &Vec<char>, from: usize, to: usize)
    requires
        from <= to <= chars@.len(),
    ensures
        final(out)@ == old(out)@ + chars@.subrange(from as int, to as int),
{
    let ghost before = out@;
    let mut i: usize = from;
    while i < to
        invariant
            from <= i <= to <= chars@.len(),
            out@ == before + chars@.subrange(from as int, i as int),
        decreases to - i,
    {
        assert(chars@.subrange(from as int, i as int + 1) =~= chars@.subrange(
            from as int,
            i as int,
        ).push(chars@[i as int]));
        out.push(chars[i]);
        i += 1;
    }
}

/// The string of the given characters.
pub fn string_of(chars: &Vec<char>) -> (s: String)
    ensures
        s@ == chars@,
{
    let mut s: String = String::new();
    push_chars(&mut s, chars, 0, chars.len());
    assert(chars@.subrange(0, chars@.len() as int) =~= chars@);
    assert(Seq::<char>::empty() + chars@ =~= chars@);
    s
}

/// `texts` with `separator` between neighbours.
pub open spec fn joined(texts: Seq<Seq<char>>, separator: Seq<char>) -> Seq<char>
    decreases texts.len(),
{
    if texts.len() == 0 {
        Seq::empty()
    } else if texts.len() == 1 {
        texts[0]
    } else {
        joined(texts.drop_last(), separator) + separator + texts.last()
    }
}

/// The views of a list of strings.
pub open spec fn texts(v: Seq<String>) -> Seq<Seq<char>> {
    Seq::new(v.len(), |i: int| v[i]@)
}

/// Joins `parts` with `separator` between neighbours.
pub fn join(parts: &Vec<String>, separator: &str) -> (s: String)
    ensures
        s@ == joined(texts(parts@), separator@),
{
    let mut s: String = String::new();
    let mut i: usize = 0;
    while i < parts.len()
        invariant
            0 <= i <= parts@.len(),
            s@ == joined(texts(parts@).take(i as int), separator@),
        decreases parts@.len() - i,
    {
        let ghost next = texts(parts@).take(i as int + 1);
        assert(next.drop_last() =~= texts(parts@).take(i as int));
        if i > 0 {
            s.append(separator);
        }
        s.append(parts[i].as_str());
        proof {
            if i == 0 {
                assert(s@ =~= next[0]);
            } else {
                assert(s@ =~= joined(next.drop_last(), separator@) + separator@ + next.last());
            }
        }
        i += 1;
    }
    assert(texts(parts@).take(parts@.len() as int) =~= texts(parts@));
    s
}

// ---------------------------------------------------------------------------
// Comparison
// ---------------------------------------------------------------------------

/// Strict lexicographic order of byte sequences; a proper prefix comes first.
pub open spec fn bytes_lt(a: Seq<u8>, b: Seq<u8>) -> bool
    decreases a.len(),
{
    if b.len() == 0 {
        false
    } else if a.len() == 0 {
        true
    } else if a[0] != b[0] {
        a[0] < b[0]
    } else {
        bytes_lt(a.drop_first(), b.drop_first())
    }
}

/// The order of strings: that of their UTF-8 bytes.
pub open spec fn text_lt(a: Seq<char>, b: Seq<char>) -> bool {
    bytes_lt(encode_utf8(a), encode_utf8(b))
}

/// Byte order is irreflexive.
pub proof fn lemma_bytes_lt_irreflexive(a: Seq<u8>)
    ensures
        !bytes_lt(a, a),
    decreases a.len(),
{
    if a.len() > 0 {
        lemma_bytes_lt_irreflexive(a.drop_first());
    }
}

/// Byte order is transitive.
pub proof fn lemma_bytes_lt_transitive(a: Seq<u8>, b: Seq<u8>, c: Seq<u8>)
    requires
        bytes_lt(a, b),
        bytes_lt(b, c),
    ensures
        bytes_lt(a, c),
    decreases a.len(),
{
    if a.len() > 0 && b.len() > 0 && c.len() > 0 && a[0] == b[0] && b[0] == c[0] {
        lemma_bytes_lt_transitive(a.drop_first(), b.drop_first(), c.drop_first());
    }
}

/// Two byte sequences are equal or one comes before the other.
pub proof fn lemma_bytes_lt_total(a: Seq<u8>, b: Seq<u8>)
    ensures
        bytes_lt(a, b) || a == b || bytes_lt(b, a),
    decreases a.len(),
{
    if a.len() == 0 && b.len() == 0 {
        assert(a =~= b);
    } else if a.len() > 0 && b.len() > 0 && a[0] == b[0] {
        lemma_bytes_lt_total(a.drop_first(), b.drop_first());
        if a.drop_first() == b.drop_first() {
            assert(a =~= seq![a[0]] + a.drop_first());
            assert(b =~= seq![b[0]] + b.drop_first());
        }
    }
}

/// Strings with the same UTF-8 bytes are the same.
pub proof fn lemma_encode_injective(a: Seq<char>, b: Seq<char>)
    ensures
        encode_utf8(a) == encode_utf8(b) <==> a == b,
{
    vstd::utf8::encode_utf8_decode_utf8(a);
    vstd::utf8::encode_utf8_decode_utf8(b);
}

/// The order of strings is total.
pub proof fn lemma_text_lt_total(a: Seq<char>, b: Seq<char>)
    ensures
        text_lt(a, b) || a == b || text_lt(b, a),
        !(text_lt(a, b) && text_lt(b, a)),
        !text_lt(a, a),
{
    lemma_bytes_lt_total(encode_utf8(a), encode_utf8(b));
    lemma_encode_injective(a, b);
    lemma_bytes_lt_irreflexive(encode_utf8(a));
    if text_lt(a, b) && text_lt(b, a) {
        lemma_bytes_lt_transitive(encode_utf8(a), encode_utf8(b), encode_utf8(a));
    }
}

/// The order of strings is transitive.
pub proof fn lemma_text_lt_transitive(a: Seq<char>, b: Seq<char>, c: Seq<char>)
    requires
        text_lt(a, b),
        text_lt(b, c),
    ensures
        text_lt(a, c),
{
    lemma_bytes_lt_transitive(encode_utf8(a), encode_utf8(b), encode_utf8(c));
}

/// How two keys stand to each other.
#[derive(Clone, Copy, PartialEq, Eq, Debug, Structural)]
pub enum Relation {
    Before,
    Same,
    After,
}

/// The relation of two byte sequences.
pub open spec fn bytes_relation(a: Seq<u8>, b: Seq<u8>) -> Relation {
    if bytes_lt(a, b) {
        Relation::Before
    } else if a == b {
        Relation::Same
    } else {
        Relation::After
    }
}

/// Orders two byte slices.
pub fn relate_bytes(a: &[u8], b: &[u8]) -> (r: Relation)
    ensures
        r == bytes_relation(a@, b@),
{
    let mut i: usize = 0;
    assert(a@.skip(0) =~= a@);
    assert(b@.skip(0) =~= b@);
    while i < a.len() && i < b.len() && a[i] == b[i]
        invariant
            i <= a@.len(),
            i <= b@.len(),
            a@.take(i as int) == b@.take(i as int),
            bytes_lt(a@, b@) == bytes_lt(a@.skip(i as int), b@.skip(i as int)),
            (a@ == b@) == (a@.skip(i as int) == b@.skip(i as int)),
        decreases a@.len() - i,
    {
        proof {
            let x = a@.skip(i as int);
            let y = b@.skip(i as int);
            assert(x.drop_first() =~= a@.skip(i as int + 1));
            assert(y.drop_first() =~= b@.skip(i as int + 1));
            assert(x =~= seq![x[0]] + x.drop_first());
            assert(y =~= seq![y[0]] + y.drop_first());
            assert(a@.take(i as int + 1) =~= a@.take(i as int).push(a@[i as int]));
            assert(b@.take(i as int + 1) =~= b@.take(i as int).push(b@[i as int]));
        }
        i += 1;
    }
    proof {
        let x = a@.skip(i as int);
        let y = b@.skip(i as int);
        if i == a@.len() && i == b@.len() {
            assert(x =~= y);
            lemma_bytes_lt_irreflexive(x);
        }
    }
    if i < b.len() {
        if i < a.len() {
            if a[i] < b[i] {
                Relation::Before
            } else {
                assert(a@.skip(i as int)[0] != b@.skip(i as int)[0]);
                Relation::After
            }
        } else {
            Relation::Before
        }
    } else if i < a.len() {
        assert(a@.skip(i as int).len() != b@.skip(i as int).len());
        Relation::After
    } else {
        Relation::Same
    }
}

/// The relation of two strings.
pub open spec fn text_relation(a: Seq<char>, b: Seq<char>) -> Relation {
    if text_lt(a, b) {
        Relation::Before
    } else if a == b {
        Relation::Same
    } else {
        Relation::After
    }
}

/// Orders two strings.
pub fn relate_text(a: &str, b: &str) -> (r: Relation)
    ensures
        r == text_relation(a@, b@),
{
    proof {
        lemma_encode_injective(a@, b@);
    }
    relate_bytes(a.as_bytes(), b.as_bytes())
}

/// Whether two strings have the same characters.
pub fn same_text(a: &str, b: &str) -> (r: bool)
    ensures
        r == (a@ == b@),
{
    proof {
        lemma_text_lt_total(a@, b@);
    }
    match relate_text(a, b) {
        Relation::Same => true,
        _ => false,
    }
}

/// Whether `list` holds `text`.
pub fn list_has(list: &Vec<String>, text: &str) -> (r: bool)
    ensures
        r == texts(list@).contains(text@),
{
    let mut i: usize = 0;
    while i < list.len()
        invariant
            0 <= i <= list@.len(),
            forall|j: int| 0 <= j < i ==> texts(list@)[j] != text@,
        decreases list@.len() - i,
    {
        if same_text(list[i].as_str(), text) {
            assert(texts(list@)[i as int] == text@);
            return true;
        }
        i += 1;
    }
    false
}

// ---------------------------------------------------------------------------
// White space
// ---------------------------------------------------------------------------

/// The characters with Unicode's `White_Space` property.
pub open spec fn is_white_space(c: char) -> bool {
    let v = c as int;
    ||| 0x9 <= v <= 0xd
    ||| v == 0x20
    ||| v == 0x85
    ||| v == 0xa0
    ||| v == 0x1680
    ||| 0x2000 <= v <= 0x200a
    ||| v == 0x2028
    ||| v == 0x2029
    ||| v == 0x202f
    ||| v == 0x205f
    ||| v == 0x3000
}

/// `char::is_whitespace`: whether the character has the `White_Space` property, whose
/// members in the Unicode database are those of `is_white_space`.
#[verifier::external_body]
fn white_space(c: char) -> (b: bool)
    ensures
        b == is_white_space(c),
{
    c.is_whitespace()
}

/// How many white-space characters `s` starts with.
pub open spec fn leading_white(s: Seq<char>) -> nat
    decreases s.len(),
{
    if s.len() > 0 && is_white_space(s[0]) {
        1 + leading_white(s.drop_first())
    } else {
        0
    }
}

/// How many white-space characters `s` ends with.
pub open spec fn trailing_white(s: Seq<char>) -> nat
    decreases s.len(),
{
    if s.len() > 0 && is_white_space(s.last()) {
        1 + trailing_white(s.drop_last())
    } else {
        0
    }
}

/// `s` without leading white space.
pub open spec fn trimmed_start(s: Seq<char>) -> Seq<char> {
    s.skip(leading_white(s) as int)
}

/// `s` without trailing white space.
pub open spec fn trimmed_end(s: Seq<char>) -> Seq<char> {
    s.take(s.len() - trailing_white(s))
}

/// `s` without leading and trailing white space.
pub open spec fn trimmed(s: Seq<char>) -> Seq<char> {
    trimmed_end(trimmed_start(s))
}

proof fn lemma_leading_white(s: Seq<char>, k: int)
    requires
        0 <= k <= s.len(),
        forall|j: int| 0 <= j < k ==> is_white_space(#[trigger] s[j]),
        k < s.len() ==> !is_white_space(s[k]),
    ensures
        leading_white(s) == k,
    decreases s.len(),
{
    if k > 0 {
        lemma_leading_white(s.drop_first(), k - 1);
    }
}

proof fn lemma_trailing_white(s: Seq<char>, k: int)
    requires
        0 <= k <= s.len(),
        forall|j: int| s.len() - k <= j < s.len() ==> is_white_space(#[trigger] s[j]),
        k < s.len() ==> !is_white_space(s[s.len() - k - 1]),
    ensures
        trailing_white(s) == k,
    decreases s.len(),
{
    if k > 0 {
        lemma_trailing_white(s.drop_last(), k - 1);
    }
}

/// White space at an end is never more than the string holds.
pub proof fn lemma_white_bounds(s: Seq<char>)
    ensures
        leading_white(s) <= s.len(),
        trailing_white(s) <= s.len(),
    decreases s.len(),
{
    if s.len() > 0 {
        lemma_white_bounds(s.drop_first());
        lemma_white_bounds(s.drop_last());
    }
}

/// A copy of `s` without leading and trailing white space.
pub fn trim(s: &str) -> (t: String)
    ensures
        t@ == trimmed(s@),
{
    let v = chars_of(s);
    let mut i: usize = 0;
    while i < v.len() && white_space(v[i])
        invariant
            0 <= i <= v@.len(),
            forall|j: int| 0 <= j < i ==> is_white_space(#[trigger] v@[j]),
        decreases v@.len() - i,
    {
        i += 1;
    }
    proof {
        lemma_leading_white(v@, i as int);
    }
    let ghost rest = v@.skip(i as int);
    let mut k: usize = v.len();
    while k > i && white_space(v[k - 1])
        invariant
            i <= k <= v@.len(),
            rest == v@.skip(i as int),
            forall|j: int| k <= j < v@.len() ==> is_white_space(#[trigger] v@[j]),
        decreases k,
    {
        k -= 1;
    }
    proof {
        let n = v@.len() - k;
        assert forall|j: int| rest.len() - n <= j < rest.len() implies is_white_space(
            #[trigger] rest[j],
        ) by {
            assert(rest[j] == v@[j + i]);
        }
        if k > i {
            assert(rest[rest.len() - n - 1] == v@[k - 1]);
        }
        lemma_trailing_white(rest, n);
        assert(v@.subrange(i as int, k as int) =~= trimmed(v@));
        assert(Seq::<char>::empty() + trimmed(v@) =~= trimmed(v@));
    }
    let mut t: String = String::new();
    push_chars(&mut t, &v, i, k);
    t
}

/// Whether every character of `s` is white space.
pub open spec fn is_blank(s: Seq<char>) -> bool {
    forall|i: int| 0 <= i < s.len() ==> is_white_space(#[trigger] s[i])
}

/// A text trims to nothing exactly where it holds nothing but white space.
pub proof fn law_blank_text_trims_to_nothing(s: Seq<char>)
    ensures
        trimmed(s).len() == 0 <==> is_blank(s),
{
    lemma_white_bounds(s);
    let rest = trimmed_start(s);
    lemma_white_bounds(rest);
    lemma_leading_prefix(s);
    if is_blank(s) {
        lemma_leading_white(s, s.len() as int);
    } else {
        let k = choose|k: int| 0 <= k < s.len() && !is_white_space(#[trigger] s[k]);
        let lead = leading_white(s) as int;
        assert(k >= lead);
        assert(rest[k - lead] == s[k]);
        lemma_trailing_suffix(rest);
        if trailing_white(rest) == rest.len() {
            assert(is_white_space(rest[k - lead]));
        }
    }
}

proof fn lemma_leading_prefix(s: Seq<char>)
    ensures
        leading_white(s) <= s.len(),
        forall|j: int| 0 <= j < leading_white(s) ==> is_white_space(#[trigger] s[j]),
    decreases s.len(),
{
    if s.len() > 0 && is_white_space(s[0]) {
        lemma_leading_prefix(s.drop_first());
        assert forall|j: int| 0 <= j < leading_white(s) implies is_white_space(
            #[trigger] s[j],
        ) by {
            if j > 0 {
                assert(s.drop_first()[j - 1] == s[j]);
            }
        }
    }
}

proof fn lemma_trailing_suffix(s: Seq<char>)
    ensures
        trailing_white(s) <= s.len(),
        forall|j: int| s.len() - trailing_white(s) <= j < s.len() ==> is_white_space(
            #[trigger] s[j],
        ),
    decreases s.len(),
{
    if s.len() > 0 && is_white_space(s.last()) {
        lemma_trailing_suffix(s.drop_last());
        assert forall|j: int| s.len() - trailing_white(s) <= j < s.len() implies is_white_space(
            #[trigger] s[j],
        ) by {
            if j < s.len() - 1 {
                assert(s.drop_last()[j] == s[j]);
            }
        }
    }
}

// ---------------------------------------------------------------------------
// Shortening
// ---------------------------------------------------------------------------

/// `text`, cut to `max_chars` characters with a trailing ellipsis where it is longer.
pub open spec fn ellipsized(text: Seq<char>, max_chars: int) -> Seq<char> {
    if text.len() <= max_chars {
        text
    } else {
        text.take(if max_chars > 0 { max_chars - 1 } else { 0 }).push('…')
    }
}

/// Cuts `text` to `max_chars` characters, the last of which is then an ellipsis.
pub fn ellipsize(text: &str, max_chars: usize) -> (s: String)
    ensures
        s@ == ellipsized(text@, max_chars as int),
{
    let v = chars_of(text);
    if v.len() <= max_chars {
        return text.to_owned();
    }
    let keep: usize = if max_chars > 0 { max_chars - 1 } else { 0 };
    let mut s: String = String::new();
    push_chars(&mut s, &v, 0, keep);
    s.push('…');
    assert(s@ =~= ellipsized(text@, max_chars as int));
    s
}

/// A shortened text is never longer than its limit, unless the limit is nothing at all, in
/// which case the ellipsis remains.
pub proof fn law_ellipsized_length(text: Seq<char>, max_chars: nat)
    ensures
        ellipsized(text, max_chars as int).len() <= if max_chars == 0 { 1 } else { max_chars },
        text.len() <= max_chars ==> ellipsized(text, max_chars as int) == text,
{
}

/// What a list holds is what stands before its last place, and what stands there.
pub proof fn lemma_held_or_last<T>(list: Seq<T>, x: T)
    requires
        list.len() > 0,
    ensures
        list.contains(x) <==> list.drop_last().contains(x) || list.last() == x,
{
    let shorter = list.drop_last();
    if shorter.contains(x) {
        let i = choose|i: int| 0 <= i < shorter.len() && shorter[i] == x;
        assert(list[i] == x);
    }
    if list.contains(x) {
        let i = choose|i: int| 0 <= i < list.len() && list[i] == x;
        if i < shorter.len() {
            assert(shorter[i] == x);
        }
    }
    assert(list[list.len() - 1] == list.last());
}

/// What a list holds once something was put at its end.
pub proof fn lemma_held_after_push<T>(list: Seq<T>, last: T, x: T)
    ensures
        list.push(last).contains(x) <==> list.contains(x) || last == x,
{
    lemma_held_or_last(list.push(last), x);
    assert(list.push(last).drop_last() =~= list);
}

/// Trimming cuts nothing but white space off both ends, and all of it there: what stands between
/// the first and the last other character stays as it is.
pub proof fn law_trimming_cuts_only_white_space(s: Seq<char>) -> (cut: (int, int))
    ensures
        0 <= cut.0 <= cut.1 <= s.len(),
        trimmed(s) == s.subrange(cut.0, cut.1),
        forall|i: int| 0 <= i < cut.0 ==> is_white_space(#[trigger] s[i]),
        forall|i: int| cut.1 <= i < s.len() ==> is_white_space(#[trigger] s[i]),
        cut.0 < cut.1 ==> !is_white_space(s[cut.0]) && !is_white_space(s[cut.1 - 1]),
{
    let lead = leading_white(s) as int;
    let rest = trimmed_start(s);
    let tail = trailing_white(rest) as int;
    lemma_white_bounds(s);
    lemma_white_bounds(rest);
    lemma_leading_prefix(s);
    lemma_trailing_suffix(rest);
    let end = lead + rest.len() - tail;
    assert(trimmed(s) =~= s.subrange(lead, end));
    assert forall|i: int| end <= i < s.len() implies is_white_space(#[trigger] s[i]) by {
        assert(rest[i - lead] == s[i]);
    }
    if lead < end {
        lemma_white_ends(s);
        lemma_white_ends(rest);
        assert(rest[rest.len() - tail - 1] == s[end - 1]);
    }
    (lead, end)
}

/// What follows leading white space, and what precedes trailing white space, is none.
proof fn lemma_white_ends(s: Seq<char>)
    ensures
        leading_white(s) < s.len() ==> !is_white_space(s[leading_white(s) as int]),
        trailing_white(s) < s.len() ==> !is_white_space(s[s.len() - trailing_white(s) - 1]),
    decreases s.len(),
{
    if s.len() > 0 {
        lemma_white_ends(s.drop_first());
        lemma_white_ends(s.drop_last());
    }
}

/// A text that is too long keeps its beginning and ends in an ellipsis, at just its limit.
pub proof fn law_long_text_is_cut_at_its_limit(text: Seq<char>, max_chars: nat)
    requires
        text.len() > max_chars > 0,
    ensures
        ellipsized(text, max_chars as int).len() == max_chars,
        ellipsized(text, max_chars as int).last() == '…',
        ellipsized(text, max_chars as int).drop_last() == text.take(max_chars - 1),
{
    assert(ellipsized(text, max_chars as int).drop_last() =~= text.take(max_chars - 1));
}

} // verus!
