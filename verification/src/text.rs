//! Text primitives: splitting, trimming, joining, escaping and ordering of strings,
//! each stated over the sequence of characters that a string holds.
use vstd::prelude::*;
use vstd::utf8::*;

verus! {

/// `String::push` appends one character.
pub assume_specification[ String::push ](s: &mut String, c: char)
    ensures
        final(s)@ == old(s)@.push(c),
;

/// `String::push_str` appends a whole string slice.
pub assume_specification[ String::push_str ](s: &mut String, tail: &str)
    ensures
        final(s)@ == old(s)@ + tail@,
;

/// `str::eq` holds exactly when both slices hold the same characters.
pub assume_specification[ <str as PartialEq<str>>::eq ](a: &str, b: &str) -> (r: bool)
    ensures
        r == (a@ == b@),
;

/// Whether a character has Unicode's `White_Space` property.
pub open spec fn is_space(c: char) -> bool {
    '\u{9}' <= c <= '\u{d}' || c == ' ' || c == '\u{85}' || c == '\u{a0}' || c == '\u{1680}'
        || '\u{2000}' <= c <= '\u{200a}' || c == '\u{2028}' || c == '\u{2029}' || c == '\u{202f}'
        || c == '\u{205f}' || c == '\u{3000}'
}

/// `char::is_whitespace` tells whether a character has Unicode's `White_Space` property.
pub assume_specification[ char::is_whitespace ](c: char) -> (r: bool)
    ensures
        r == is_space(c),
;

// ---------------------------------------------------------------------------
// Views
// ---------------------------------------------------------------------------

/// The texts that a sequence of strings holds.
pub open spec fn views(parts: Seq<String>) -> Seq<Seq<char>> {
    parts.map_values(|s: String| s@)
}

/// The text that an optional string holds.
pub open spec fn opt_view(s: Option<String>) -> Option<Seq<char>> {
    match s {
        Some(s) => Some(s@),
        None => None,
    }
}

/// The text that an optional string reference holds.
pub open spec fn opt_ref_view(s: Option<&String>) -> Option<Seq<char>> {
    match s {
        Some(s) => Some(s@),
        None => None,
    }
}

/// The number of bytes of a text in UTF-8.
pub open spec fn utf8_len(s: Seq<char>) -> nat {
    encode_utf8(s).len()
}

/// Encoding distributes over concatenation, so byte lengths add up.
pub proof fn lemma_utf8_len_add(a: Seq<char>, b: Seq<char>)
    ensures
        utf8_len(a + b) == utf8_len(a) + utf8_len(b),
    decreases a.len(),
{
    if a.len() == 0 {
        assert(a + b =~= b);
    } else {
        assert((a + b).drop_first() =~= a.drop_first() + b);
        assert((a + b)[0] == a[0]);
        lemma_utf8_len_add(a.drop_first(), b);
    }
}

/// A text that is not empty takes at least a byte.
pub proof fn lemma_utf8_len_positive(s: Seq<char>)
    requires
        s.len() > 0,
    ensures
        utf8_len(s) > 0,
{
    assert(encode_scalar(s[0] as u32).len() > 0);
}

/// Whether two strings hold the same text.
pub fn same_text(a: &str, b: &str) -> (r: bool)
    ensures
        r == (a@ == b@),
{
    *a == *b
}

/// The length of a string in bytes.
pub fn byte_len(s: &str) -> (r: usize)
    ensures
        r == utf8_len(s@),
{
    s.as_bytes().len()
}

/// The characters of a string, in order.
pub fn chars_of(s: &str) -> (r: Vec<char>)
    ensures
        r@ == s@,
{
    let mut out: Vec<char> = Vec::new();
    for c in it: s.chars()
        invariant
            out@ == s@.take(it.index() as int),
            it.seq() == s@,
    {
        proof {
            assert(s@.take(it.index() as int + 1) =~= s@.take(it.index() as int).push(c));
        }
        out.push(c);
    }
    proof {
        assert(s@.take(s@.len() as int) =~= s@);
    }
    out
}

/// The string of the characters from `from` up to, not including, `to`.
pub fn text_of(chars: &Vec<char>, from: usize, to: usize) -> (r: String)
    requires
        from <= to <= chars@.len(),
    ensures
        r@ == chars@.subrange(from as int, to as int),
{
    let mut out = String::new();
    let mut i: usize = from;
    while i < to
        invariant
            from <= i <= to <= chars@.len(),
            out@ == chars@.subrange(from as int, i as int),
        decreases to - i,
    {
        out.push(chars[i]);
        proof {
            assert(chars@.subrange(from as int, i as int).push(chars@[i as int])
                =~= chars@.subrange(from as int, i + 1));
        }
        i += 1;
    }
    out
}

/// An owned copy of an optional string.
pub fn copy_option(s: &Option<String>) -> (r: Option<String>)
    ensures
        r == *s,
{
    match s {
        Some(s) => Some(s.clone()),
        None => None,
    }
}

/// An owned copy of a list of strings.
pub fn copy_list(parts: &Vec<String>) -> (r: Vec<String>)
    ensures
        r@ == parts@,
{
    let mut out: Vec<String> = Vec::new();
    let mut i: usize = 0;
    while i < parts.len()
        invariant
            i <= parts@.len(),
            out@ == parts@.take(i as int),
        decreases parts@.len() - i,
    {
        out.push(parts[i].clone());
        proof {
            assert(parts@.take(i as int).push(parts@[i as int]) =~= parts@.take(i + 1));
        }
        i += 1;
    }
    proof {
        assert(parts@.take(parts@.len() as int) =~= parts@);
    }
    out
}

/// Whether a text stands in a list of strings.
pub fn list_contains(parts: &Vec<String>, wanted: &str) -> (r: bool)
    ensures
        r == views(parts@).contains(wanted@),
{
    let mut i: usize = 0;
    while i < parts.len()
        invariant
            i <= parts@.len(),
            forall|j: int| 0 <= j < i ==> parts@[j]@ != wanted@,
        decreases parts@.len() - i,
    {
        if same_text(parts[i].as_str(), wanted) {
            proof {
                assert(views(parts@)[i as int] == wanted@);
            }
            return true;
        }
        i += 1;
    }
    proof {
        assert forall|j: int| 0 <= j < views(parts@).len() implies views(parts@)[j] != wanted@ by {
            assert(views(parts@)[j] == parts@[j]@);
        }
    }
    false
}

// ---------------------------------------------------------------------------
// Searching
// ---------------------------------------------------------------------------

/// The position of the first `c` in `s`, or its length where there is none.
pub open spec fn first_index(s: Seq<char>, c: char) -> nat
    decreases s.len(),
{
    if s.len() == 0 {
        0
    } else if s[0] == c {
        0
    } else {
        1 + first_index(s.drop_first(), c)
    }
}

pub proof fn lemma_first_index(s: Seq<char>, c: char, n: int)
    requires
        0 <= n <= s.len(),
        forall|j: int| 0 <= j < n ==> s[j] != c,
        n < s.len() ==> s[n] == c,
    ensures
        first_index(s, c) == n,
    decreases s.len(),
{
    if s.len() > 0 && n > 0 {
        assert forall|j: int| 0 <= j < n - 1 implies s.drop_first()[j] != c by {
            assert(s[j + 1] != c);
        }
        lemma_first_index(s.drop_first(), c, n - 1);
    }
}

pub proof fn lemma_first_index_is_first(s: Seq<char>, c: char)
    ensures
        first_index(s, c) <= s.len(),
        forall|j: int| 0 <= j < first_index(s, c) ==> s[j] != c,
        first_index(s, c) < s.len() ==> s[first_index(s, c) as int] == c,
    decreases s.len(),
{
    if s.len() > 0 && s[0] != c {
        lemma_first_index_is_first(s.drop_first(), c);
        assert forall|j: int| 0 <= j < first_index(s, c) implies s[j] != c by {
            if j > 0 {
                assert(s.drop_first()[j - 1] == s[j]);
            }
        }
    }
}

/// The position of the last `c` in `s`, if there is one.
pub open spec fn last_index(s: Seq<char>, c: char) -> Option<nat>
    decreases s.len(),
{
    if s.len() == 0 {
        None
    } else if s.last() == c {
        Some((s.len() - 1) as nat)
    } else {
        last_index(s.drop_last(), c)
    }
}

/// The position of the last `c` among the characters, if there is one.
pub fn find_last(chars: &Vec<char>, c: char) -> (r: Option<usize>)
    ensures
        match r {
            Some(i) => last_index(chars@, c) == Some(i as nat) && i < chars@.len() && chars@[i as int]
                == c,
            None => last_index(chars@, c) is None,
        },
{
    let mut n: usize = chars.len();
    proof {
        assert(chars@.take(n as int) =~= chars@);
    }
    while n > 0
        invariant
            n <= chars@.len(),
            last_index(chars@, c) == last_index(chars@.take(n as int), c),
        decreases n,
    {
        proof {
            assert(chars@.take(n as int).drop_last() =~= chars@.take(n - 1));
        }
        if chars[n - 1] == c {
            return Some(n - 1);
        }
        n -= 1;
    }
    None
}

/// Whether `needle` stands somewhere in `s`.
pub open spec fn contains_text(s: Seq<char>, needle: Seq<char>) -> bool {
    exists|i: int| stands_at(s, needle, i)
}

/// Whether `needle` stands in `s` at position `i`.
pub open spec fn stands_at(s: Seq<char>, needle: Seq<char>, i: int) -> bool {
    0 <= i && i + needle.len() <= s.len() && s.subrange(i, i + needle.len()) == needle
}

fn matches_at(chars: &Vec<char>, needle: &Vec<char>, at: usize) -> (r: bool)
    requires
        at + needle@.len() <= chars@.len(),
    ensures
        r == stands_at(chars@, needle@, at as int),
{
    let total: usize = chars.len();
    let mut k: usize = 0;
    while k < needle.len()
        invariant
            k <= needle@.len(),
            at + needle@.len() <= chars@.len() == total,
            forall|j: int| 0 <= j < k ==> chars@[at + j] == needle@[j],
        decreases needle@.len() - k,
    {
        if chars[at + k] != needle[k] {
            proof {
                let part = chars@.subrange(at as int, at + needle@.len());
                assert(part[k as int] == chars@[at + k]);
                assert(part != needle@);
            }
            return false;
        }
        k += 1;
    }
    proof {
        assert(chars@.subrange(at as int, at + needle@.len()) =~= needle@);
    }
    true
}

/// Whether `needle` stands somewhere in `s`.
pub fn contains(s: &str, needle: &str) -> (r: bool)
    ensures
        r == contains_text(s@, needle@),
{
    let chars = chars_of(s);
    let wanted = chars_of(needle);
    if wanted.len() > chars.len() {
        return false;
    }
    let last: usize = chars.len() - wanted.len();
    let mut i: usize = 0;
    loop
        invariant
            chars@ == s@,
            wanted@ == needle@,
            wanted@.len() <= chars@.len(),
            last == chars@.len() - wanted@.len(),
            i <= last,
            forall|j: int| 0 <= j < i ==> !stands_at(s@, needle@, j),
        decreases last - i,
    {
        if matches_at(&chars, &wanted, i) {
            proof {
                assert(stands_at(s@, needle@, i as int));
            }
            return true;
        }
        if i == last {
            proof {
                assert forall|j: int| !stands_at(s@, needle@, j) by {}
            }
            return false;
        }
        i += 1;
    }
}

/// Whether a character stands somewhere in a string.
pub fn contains_char(s: &str, c: char) -> (r: bool)
    ensures
        r == s@.contains(c),
{
    let chars = chars_of(s);
    let mut i: usize = 0;
    while i < chars.len()
        invariant
            chars@ == s@,
            i <= chars@.len(),
            forall|j: int| 0 <= j < i ==> chars@[j] != c,
        decreases chars@.len() - i,
    {
        if chars[i] == c {
            return true;
        }
        i += 1;
    }
    false
}

/// Whether a string begins with `prefix`.
pub fn starts_with(s: &str, prefix: &str) -> (r: bool)
    ensures
        r == prefix@.is_prefix_of(s@),
{
    let chars = chars_of(s);
    let wanted = chars_of(prefix);
    if wanted.len() > chars.len() {
        return false;
    }
    matches_at(&chars, &wanted, 0)
}

/// Whether a string ends with `suffix`.
pub fn ends_with(s: &str, suffix: &str) -> (r: bool)
    ensures
        r == suffix@.is_suffix_of(s@),
{
    let chars = chars_of(s);
    let wanted = chars_of(suffix);
    if wanted.len() > chars.len() {
        return false;
    }
    matches_at(&chars, &wanted, chars.len() - wanted.len())
}

/// What follows `prefix` in `s`, where `s` begins with it.
pub open spec fn without_prefix(s: Seq<char>, prefix: Seq<char>) -> Option<Seq<char>> {
    if prefix.is_prefix_of(s) {
        Some(s.skip(prefix.len() as int))
    } else {
        None
    }
}

/// What precedes `suffix` in `s`, where `s` ends with it.
pub open spec fn without_suffix(s: Seq<char>, suffix: Seq<char>) -> Option<Seq<char>> {
    if suffix.is_suffix_of(s) {
        Some(s.take(s.len() - suffix.len()))
    } else {
        None
    }
}

/// What follows `prefix` in a string that begins with it.
pub fn strip_prefix(s: &str, prefix: &str) -> (r: Option<String>)
    ensures
        opt_view(r) == without_prefix(s@, prefix@),
{
    if !starts_with(s, prefix) {
        return None;
    }
    let chars = chars_of(s);
    let skipped: usize = chars_of(prefix).len();
    Some(text_of(&chars, skipped, chars.len()))
}

/// What precedes `suffix` in a string that ends with it.
pub fn strip_suffix(s: &str, suffix: &str) -> (r: Option<String>)
    ensures
        opt_view(r) == without_suffix(s@, suffix@),
{
    if !ends_with(s, suffix) {
        return None;
    }
    let chars = chars_of(s);
    let dropped: usize = chars_of(suffix).len();
    Some(text_of(&chars, 0, chars.len() - dropped))
}

// ---------------------------------------------------------------------------
// Records and lines
// ---------------------------------------------------------------------------

/// The records of a text: each ends with its line feed, except perhaps the last.
pub open spec fn records_of(s: Seq<char>) -> Seq<Seq<char>>
    decreases s.len(),
{
    let n = first_index(s, '\n');
    if s.len() == 0 {
        Seq::empty()
    } else if n >= s.len() {
        seq![s]
    } else {
        seq![s.take(n as int + 1)] + records_of(s.skip(n as int + 1))
    }
}

/// A record without its line feed, and without the carriage return before it.
pub open spec fn without_line_end(record: Seq<char>) -> Seq<char> {
    if record.len() > 0 && record.last() == '\n' {
        let body = record.drop_last();
        if body.len() > 0 && body.last() == '\r' {
            body.drop_last()
        } else {
            body
        }
    } else {
        record
    }
}

/// The lines of a text, without their line ends.
pub open spec fn lines_of(s: Seq<char>) -> Seq<Seq<char>> {
    records_of(s).map_values(|r: Seq<char>| without_line_end(r))
}

/// The concatenation of a list of texts.
pub open spec fn concat(parts: Seq<Seq<char>>) -> Seq<char>
    decreases parts.len(),
{
    if parts.len() == 0 {
        Seq::empty()
    } else {
        concat(parts.drop_last()) + parts.last()
    }
}

pub proof fn lemma_concat_one(part: Seq<char>)
    ensures
        concat(seq![part]) == part,
{
    reveal_with_fuel(concat, 2);
    assert(seq![part].drop_last() =~= Seq::<Seq<char>>::empty());
    assert(Seq::<char>::empty() + part =~= part);
}

pub proof fn lemma_concat_add(a: Seq<Seq<char>>, b: Seq<Seq<char>>)
    ensures
        concat(a + b) == concat(a) + concat(b),
    decreases b.len(),
{
    if b.len() == 0 {
        assert(a + b =~= a);
        assert(concat(a) + concat(b) =~= concat(a));
    } else {
        assert((a + b).drop_last() =~= a + b.drop_last());
        lemma_concat_add(a, b.drop_last());
        assert(concat(a) + concat(b.drop_last()) + b.last() =~= concat(a) + concat(b));
    }
}

/// Nothing is lost in splitting: the records of a text, put together, are the text.
pub proof fn records_concatenate_to_the_text(s: Seq<char>)
    ensures
        concat(records_of(s)) == s,
    decreases s.len(),
{
    let n = first_index(s, '\n');
    lemma_first_index_is_first(s, '\n');
    if s.len() == 0 {
    } else if n >= s.len() {
        lemma_concat_one(s);
    } else {
        let head = s.take(n as int + 1);
        records_concatenate_to_the_text(s.skip(n as int + 1));
        lemma_concat_add(seq![head], records_of(s.skip(n as int + 1)));
        lemma_concat_one(head);
        assert(head + s.skip(n as int + 1) =~= s);
    }
}

/// Whether a text can stand as a record: not empty, and with a line feed at its end at most.
pub open spec fn is_record(s: Seq<char>) -> bool {
    s.len() > 0 && !s.drop_last().contains('\n')
}

/// Records are read back from their concatenation, where each but the last ends with a line
/// feed.
pub proof fn records_read_back(parts: Seq<Seq<char>>)
    requires
        forall|i: int| 0 <= i < parts.len() ==> is_record(#[trigger] parts[i]),
        forall|i: int| 0 <= i < parts.len() - 1 ==> (#[trigger] parts[i]).last() == '\n',
    ensures
        records_of(concat(parts)) == parts,
    decreases parts.len(),
{
    if parts.len() > 0 {
        let head = parts[0];
        let rest = parts.drop_first();
        assert(parts =~= seq![head] + rest);
        lemma_concat_add(seq![head], rest);
        lemma_concat_one(head);
        assert forall|i: int| 0 <= i < rest.len() implies is_record(#[trigger] rest[i]) by {
            assert(rest[i] == parts[i + 1]);
        }
        assert forall|i: int| 0 <= i < rest.len() - 1 implies (#[trigger] rest[i]).last()
            == '\n' by {
            assert(rest[i] == parts[i + 1]);
        }
        records_read_back(rest);
        let s = concat(parts);
        let n = head.len() - 1;
        assert forall|i: int| 0 <= i < n implies s[i] != '\n' by {
            assert(s[i] == head.drop_last()[i]);
        }
        if rest.len() > 0 {
            assert(s[n] == '\n');
            lemma_first_index(s, '\n', n);
            assert(s.take(n + 1) =~= head);
            assert(s.skip(n + 1) =~= concat(rest));
        } else {
            assert(concat(rest) =~= Seq::<char>::empty());
            assert(s =~= head);
            if s.last() == '\n' {
                lemma_first_index(s, '\n', n);
                assert(s.take(n + 1) =~= head);
                assert(s.skip(n + 1) =~= Seq::<char>::empty());
                assert(records_of(s) =~= parts);
            } else {
                lemma_first_index(s, '\n', n + 1);
                assert(records_of(s) =~= parts);
            }
        }
    } else {
        assert(records_of(concat(parts)) =~= parts);
    }
}

/// What a text is split into are records, and each but the last ends with a line feed.
pub proof fn lemma_records(s: Seq<char>)
    ensures
        forall|i: int| 0 <= i < records_of(s).len() ==> is_record(#[trigger] records_of(s)[i]),
        forall|i: int|
            0 <= i < records_of(s).len() - 1 ==> (#[trigger] records_of(s)[i]).last() == '\n',
    decreases s.len(),
{
    let n = first_index(s, '\n');
    lemma_first_index_is_first(s, '\n');
    if s.len() == 0 {
    } else if n >= s.len() {
    } else {
        let head = s.take(n as int + 1);
        let rest = s.skip(n as int + 1);
        lemma_records(rest);
        assert forall|i: int| 0 <= i < records_of(s).len() implies is_record(
            #[trigger] records_of(s)[i],
        ) by {
            if i == 0 {
                assert forall|j: int| 0 <= j < head.drop_last().len() implies head.drop_last()[j]
                    != '\n' by {
                    assert(head.drop_last()[j] == s[j]);
                }
            } else {
                assert(records_of(s)[i] == records_of(rest)[i - 1]);
            }
        }
        assert forall|i: int| 0 <= i < records_of(s).len() - 1 implies (#[trigger] records_of(
            s,
        )[i]).last() == '\n' by {
            if i > 0 {
                assert(records_of(s)[i] == records_of(rest)[i - 1]);
            }
        }
    }
}

/// The records of a text, each with its line feed.
pub fn records(content: &str) -> (r: Vec<String>)
    ensures
        views(r@) == records_of(content@),
{
    let chars = chars_of(content);
    let mut out: Vec<String> = Vec::new();
    let mut start: usize = 0;
    let mut i: usize = 0;
    proof {
        assert(chars@.skip(0) =~= chars@);
        assert(views(out@) + records_of(chars@) =~= records_of(chars@));
    }
    while i < chars.len()
        invariant
            chars@ == content@,
            start <= i <= chars@.len(),
            forall|j: int| start <= j < i ==> chars@[j] != '\n',
            views(out@) + records_of(chars@.skip(start as int)) == records_of(chars@),
        decreases chars@.len() - i,
    {
        if chars[i] == '\n' {
            let record = text_of(&chars, start, i + 1);
            proof {
                let rest = chars@.skip(start as int);
                assert forall|j: int| 0 <= j < i - start implies rest[j] != '\n' by {
                    assert(rest[j] == chars@[start + j]);
                }
                assert(rest[i - start] == '\n');
                lemma_first_index(rest, '\n', i - start);
                assert(rest.take(i - start + 1) =~= record@);
                assert(rest.skip(i - start + 1) =~= chars@.skip(i + 1));
                assert(views(out@.push(record)) =~= views(out@).push(record@));
                assert(views(out@) + (seq![record@] + records_of(chars@.skip(i + 1)))
                    =~= views(out@).push(record@) + records_of(chars@.skip(i + 1)));
            }
            out.push(record);
            start = i + 1;
        }
        i += 1;
    }
    if start < chars.len() {
        let record = text_of(&chars, start, chars.len());
        proof {
            let rest = chars@.skip(start as int);
            assert(rest =~= record@);
            assert forall|j: int| 0 <= j < rest.len() implies rest[j] != '\n' by {
                assert(rest[j] == chars@[start + j]);
            }
            lemma_first_index(rest, '\n', rest.len() as int);
            assert(views(out@.push(record)) =~= views(out@).push(record@));
            assert(views(out@) + seq![record@] =~= views(out@).push(record@));
        }
        out.push(record);
    } else {
        proof {
            assert(chars@.skip(start as int).len() == 0);
            assert(views(out@) + Seq::<Seq<char>>::empty() =~= views(out@));
        }
    }
    out
}

/// A record without its line end.
pub fn line_of(record: &str) -> (r: String)
    ensures
        r@ == without_line_end(record@),
{
    let chars = chars_of(record);
    let n: usize = chars.len();
    if n > 0 && chars[n - 1] == '\n' {
        if n > 1 && chars[n - 2] == '\r' {
            proof {
                assert(chars@.subrange(0, n - 2) =~= chars@.drop_last().drop_last());
            }
            text_of(&chars, 0, n - 2)
        } else {
            proof {
                assert(chars@.subrange(0, n - 1) =~= chars@.drop_last());
            }
            text_of(&chars, 0, n - 1)
        }
    } else {
        proof {
            assert(chars@.subrange(0, n as int) =~= chars@);
        }
        text_of(&chars, 0, n)
    }
}

/// The lines of a text, without their line ends.
pub fn lines(content: &str) -> (r: Vec<String>)
    ensures
        views(r@) == lines_of(content@),
{
    let found = records(content);
    let mut out: Vec<String> = Vec::new();
    let mut i: usize = 0;
    while i < found.len()
        invariant
            views(found@) == records_of(content@),
            i <= found@.len(),
            out@.len() == i,
            forall|j: int| 0 <= j < i ==> out@[j]@ == without_line_end(found@[j]@),
        decreases found@.len() - i,
    {
        out.push(line_of(found[i].as_str()));
        i += 1;
    }
    proof {
        assert forall|j: int| 0 <= j < out@.len() implies views(out@)[j] == lines_of(content@)[j] by {
            assert(views(found@)[j] == found@[j]@);
        }
        assert(views(found@).len() == found@.len());
        assert(views(out@) =~= lines_of(content@));
    }
    out
}

// ---------------------------------------------------------------------------
// Joining and splitting
// ---------------------------------------------------------------------------

/// The texts of a list, with `sep` between each two of them.
pub open spec fn joined(parts: Seq<Seq<char>>, sep: Seq<char>) -> Seq<char>
    decreases parts.len(),
{
    if parts.len() == 0 {
        Seq::empty()
    } else if parts.len() == 1 {
        parts[0]
    } else {
        joined(parts.drop_last(), sep) + sep + parts.last()
    }
}

/// Joins the strings of a list with `sep` between each two of them.
pub fn join(parts: &Vec<String>, sep: &str) -> (r: String)
    ensures
        r@ == joined(views(parts@), sep@),
{
    let mut out = String::new();
    let mut i: usize = 0;
    while i < parts.len()
        invariant
            i <= parts@.len(),
            out@ == joined(views(parts@).take(i as int), sep@),
        decreases parts@.len() - i,
    {
        if i > 0 {
            out.push_str(sep);
        }
        out.push_str(parts[i].as_str());
        proof {
            let now = views(parts@).take(i + 1);
            assert(now.drop_last() =~= views(parts@).take(i as int));
            assert(now.last() == parts@[i as int]@);
            if i == 0 {
                assert(out@ =~= now[0]);
            }
        }
        i += 1;
    }
    proof {
        assert(views(parts@).take(parts@.len() as int) =~= views(parts@));
    }
    out
}

/// Whether a text can stand as a line: it holds no line feed and does not end with a
/// carriage return.
pub open spec fn is_line(s: Seq<char>) -> bool {
    !s.contains('\n') && (s.len() > 0 ==> s.last() != '\r')
}

pub proof fn lemma_joined_front(parts: Seq<Seq<char>>, sep: Seq<char>)
    requires
        parts.len() >= 2,
    ensures
        joined(parts, sep) == parts[0] + sep + joined(parts.drop_first(), sep),
    decreases parts.len(),
{
    let rest = parts.drop_first();
    if parts.len() == 2 {
        reveal_with_fuel(joined, 2);
        assert(parts.drop_last()[0] == parts[0]);
        assert(rest[0] == parts.last());
    } else {
        lemma_joined_front(parts.drop_last(), sep);
        assert(parts.drop_last().drop_first() =~= rest.drop_last());
        assert(parts.drop_last()[0] == parts[0]);
        assert(rest.last() == parts.last());
        assert(joined(parts, sep) =~= parts[0] + sep + joined(rest, sep));
    }
}

proof fn lemma_record_then_rest(line: Seq<char>, rest: Seq<char>)
    requires
        !line.contains('\n'),
    ensures
        records_of(line.push('\n') + rest) == seq![line.push('\n')] + records_of(rest),
{
    let s = line.push('\n') + rest;
    assert forall|j: int| 0 <= j < line.len() implies s[j] != '\n' by {
        assert(s[j] == line[j]);
    }
    assert(s[line.len() as int] == '\n');
    lemma_first_index(s, '\n', line.len() as int);
    assert(s.take(line.len() as int + 1) =~= line.push('\n'));
    assert(s.skip(line.len() as int + 1) =~= rest);
}

/// Lines joined with line feeds are read back as the same lines, with or without a line feed
/// at the end, where each can stand as a line.
pub proof fn joined_lines_read_back(parts: Seq<Seq<char>>, ends: bool)
    requires
        parts.len() > 0,
        forall|i: int| 0 <= i < parts.len() ==> is_line(#[trigger] parts[i]),
        !ends ==> parts.last().len() > 0,
    ensures
        lines_of(
            joined(parts, seq!['\n']) + if ends {
                seq!['\n']
            } else {
                Seq::<char>::empty()
            },
        ) == parts,
    decreases parts.len(),
{
    let tail = if ends {
        seq!['\n']
    } else {
        Seq::<char>::empty()
    };
    let line = parts[0];
    let f = |r: Seq<char>| without_line_end(r);
    assert(is_line(line));
    if parts.len() == 1 {
        let s = line + tail;
        if ends {
            assert(s =~= line.push('\n') + Seq::<char>::empty());
            lemma_record_then_rest(line, Seq::empty());
            assert(records_of(s) =~= seq![line.push('\n')]);
            assert(line.push('\n').drop_last() =~= line);
            assert(lines_of(s) =~= parts);
        } else {
            assert(s =~= line);
            assert forall|j: int| 0 <= j < s.len() implies s[j] != '\n' by {
                assert(line.contains(line[j]));
            }
            lemma_first_index(s, '\n', s.len() as int);
            assert(s.last() != '\n');
            assert(lines_of(s) =~= parts);
        }
    } else {
        let more = parts.drop_first();
        lemma_joined_front(parts, seq!['\n']);
        assert forall|i: int| 0 <= i < more.len() implies is_line(#[trigger] more[i]) by {
            assert(more[i] == parts[i + 1]);
        }
        assert(more.last() == parts.last());
        joined_lines_read_back(more, ends);
        let rest = joined(more, seq!['\n']) + tail;
        let s = joined(parts, seq!['\n']) + tail;
        assert(s =~= line.push('\n') + rest);
        lemma_record_then_rest(line, rest);
        assert(line.push('\n').drop_last() =~= line);
        assert(without_line_end(line.push('\n')) == line);
        assert(lines_of(s) =~= seq![line] + lines_of(rest));
        assert(seq![line] + more =~= parts);
    }
}

/// A text without a carriage return at its end.
pub open spec fn without_return(s: Seq<char>) -> Seq<char> {
    if s.len() > 0 && s.last() == '\r' {
        s.drop_last()
    } else {
        s
    }
}

/// Texts joined with line feeds, with or without one at the end.
pub open spec fn text_of_lines(parts: Seq<Seq<char>>, ends: bool) -> Seq<char> {
    joined(parts, seq!['\n']) + if ends {
        seq!['\n']
    } else {
        Seq::<char>::empty()
    }
}

/// Texts without line feeds that are joined with line feeds are read back one by one, but for
/// a carriage return at the end and an empty text at the end of all.
pub proof fn joined_lines_nearly_read_back(parts: Seq<Seq<char>>, ends: bool)
    requires
        parts.len() > 0,
        forall|i: int| 0 <= i < parts.len() ==> !(#[trigger] parts[i]).contains('\n'),
    ensures
        ({
            let found = lines_of(text_of_lines(parts, ends));
            &&& found.len() <= parts.len()
            &&& forall|i: int|
                0 <= i < found.len() ==> #[trigger] found[i] == parts[i] || found[i]
                    == without_return(parts[i])
        }),
    decreases parts.len(),
{
    let tail = if ends {
        seq!['\n']
    } else {
        Seq::<char>::empty()
    };
    let line = parts[0];
    let s = text_of_lines(parts, ends);
    assert(!line.contains('\n'));
    if parts.len() == 1 && !ends {
        assert(s =~= line);
        assert forall|j: int| 0 <= j < s.len() implies s[j] != '\n' by {
            assert(line.contains(line[j]));
        }
        lemma_first_index(s, '\n', s.len() as int);
    } else {
        let more = parts.drop_first();
        let rest = if parts.len() == 1 {
            Seq::<char>::empty()
        } else {
            text_of_lines(more, ends)
        };
        if parts.len() > 1 {
            lemma_joined_front(parts, seq!['\n']);
            assert forall|i: int| 0 <= i < more.len() implies !(#[trigger] more[i]).contains(
                '\n',
            ) by {
                assert(more[i] == parts[i + 1]);
            }
            joined_lines_nearly_read_back(more, ends);
        }
        assert(s =~= line.push('\n') + rest);
        lemma_record_then_rest(line, rest);
        assert(line.push('\n').drop_last() =~= line);
        assert(without_line_end(line.push('\n')) == without_return(line));
        assert(lines_of(s) =~= seq![without_return(line)] + lines_of(rest));
        let found = lines_of(s);
        assert forall|i: int| 0 <= i < found.len() implies #[trigger] found[i] == parts[i]
            || found[i] == without_return(parts[i]) by {
            if i > 0 {
                assert(parts.len() > 1);
                assert(found[i] == lines_of(rest)[i - 1]);
                assert(parts[i] == more[i - 1]);
            }
        }
    }
}

/// No line of a text holds a line feed, and the last line of a text that does not end with
/// one is not empty.
pub proof fn lemma_lines(s: Seq<char>)
    ensures
        forall|i: int| 0 <= i < lines_of(s).len() ==> !(#[trigger] lines_of(s)[i]).contains('\n'),
        s.len() > 0 ==> lines_of(s).len() > 0,
        s.len() > 0 && s.last() != '\n' ==> lines_of(s).last().len() > 0,
    decreases s.len(),
{
    let n = first_index(s, '\n');
    lemma_first_index_is_first(s, '\n');
    if s.len() == 0 {
    } else if n >= s.len() {
        assert(lines_of(s) =~= seq![without_line_end(s)]);
        assert(s.last() != '\n');
    } else {
        let head = s.take(n as int + 1);
        let rest = s.skip(n as int + 1);
        lemma_lines(rest);
        assert(lines_of(s) =~= seq![without_line_end(head)] + lines_of(rest));
        assert forall|i: int| 0 <= i < lines_of(s).len() implies !(#[trigger] lines_of(
            s,
        )[i]).contains('\n') by {
            if i == 0 {
                let line = without_line_end(head);
                assert forall|j: int| 0 <= j < line.len() implies line[j] != '\n' by {
                    assert(line[j] == s[j]);
                }
            } else {
                assert(lines_of(s)[i] == lines_of(rest)[i - 1]);
            }
        }
        if s.last() != '\n' {
            assert(rest.len() > 0);
            assert(rest.last() == s.last());
            assert(lines_of(s).last() == lines_of(rest).last());
        }
    }
}

/// The pieces of a text between the occurrences of a character.
pub open spec fn pieces_of(s: Seq<char>, c: char) -> Seq<Seq<char>>
    decreases s.len(),
{
    let n = first_index(s, c);
    if n >= s.len() {
        seq![s]
    } else {
        seq![s.take(n as int)] + pieces_of(s.skip(n as int + 1), c)
    }
}

/// The pieces of a string between the occurrences of a character; never an empty list.
pub fn split_on(s: &str, c: char) -> (r: Vec<String>)
    ensures
        views(r@) == pieces_of(s@, c),
        r@.len() >= 1,
{
    let chars = chars_of(s);
    let mut out: Vec<String> = Vec::new();
    let mut start: usize = 0;
    let mut i: usize = 0;
    proof {
        assert(chars@.skip(0) =~= chars@);
        assert(views(out@) + pieces_of(chars@, c) =~= pieces_of(chars@, c));
    }
    while i < chars.len()
        invariant
            chars@ == s@,
            start <= i <= chars@.len(),
            forall|j: int| start <= j < i ==> chars@[j] != c,
            views(out@) + pieces_of(chars@.skip(start as int), c) == pieces_of(chars@, c),
        decreases chars@.len() - i,
    {
        if chars[i] == c {
            let piece = text_of(&chars, start, i);
            proof {
                let rest = chars@.skip(start as int);
                assert forall|j: int| 0 <= j < i - start implies rest[j] != c by {
                    assert(rest[j] == chars@[start + j]);
                }
                assert(rest[i - start] == c);
                lemma_first_index(rest, c, i - start);
                assert(rest.take(i - start) =~= piece@);
                assert(rest.skip(i - start + 1) =~= chars@.skip(i + 1));
                assert(views(out@.push(piece)) =~= views(out@).push(piece@));
                assert(views(out@) + (seq![piece@] + pieces_of(chars@.skip(i + 1), c))
                    =~= views(out@).push(piece@) + pieces_of(chars@.skip(i + 1), c));
            }
            out.push(piece);
            start = i + 1;
        }
        i += 1;
    }
    let piece = text_of(&chars, start, chars.len());
    proof {
        let rest = chars@.skip(start as int);
        assert(rest =~= piece@);
        assert forall|j: int| 0 <= j < rest.len() implies rest[j] != c by {
            assert(rest[j] == chars@[start + j]);
        }
        lemma_first_index(rest, c, rest.len() as int);
        assert(views(out@.push(piece)) =~= views(out@).push(piece@));
        assert(views(out@) + seq![piece@] =~= views(out@).push(piece@));
    }
    out.push(piece);
    out
}

/// Pieces without the separator are read back from the text that joins them with it.
pub proof fn joined_pieces_read_back(parts: Seq<Seq<char>>, c: char)
    requires
        parts.len() > 0,
        forall|i: int| 0 <= i < parts.len() ==> !(#[trigger] parts[i]).contains(c),
    ensures
        pieces_of(joined(parts, seq![c]), c) == parts,
    decreases parts.len(),
{
    let s = joined(parts, seq![c]);
    let head = parts[0];
    let n = head.len() as int;
    if parts.len() == 1 {
        reveal_with_fuel(joined, 2);
        assert(s =~= head);
        lemma_first_index(s, c, n);
        assert(pieces_of(s, c) =~= parts);
    } else {
        let rest = parts.drop_first();
        lemma_joined_front(parts, seq![c]);
        assert forall|i: int| 0 <= i < rest.len() implies !(#[trigger] rest[i]).contains(c) by {
            assert(rest[i] == parts[i + 1]);
        }
        joined_pieces_read_back(rest, c);
        assert forall|i: int| 0 <= i < n implies s[i] != c by {
            assert(s[i] == head[i]);
        }
        assert(s[n] == c);
        lemma_first_index(s, c, n);
        assert(s.take(n) =~= head);
        assert(s.skip(n + 1) =~= joined(rest, seq![c]));
        assert(pieces_of(s, c) =~= parts);
    }
}

/// No piece of a text holds the separator, and joined with it they are the text.
pub proof fn pieces_join_to_the_text(s: Seq<char>, c: char)
    ensures
        pieces_of(s, c).len() > 0,
        forall|i: int| 0 <= i < pieces_of(s, c).len() ==> !(#[trigger] pieces_of(s, c)[i]).contains(c),
        joined(pieces_of(s, c), seq![c]) == s,
    decreases s.len(),
{
    let n = first_index(s, c);
    lemma_first_index_is_first(s, c);
    if n >= s.len() {
        reveal_with_fuel(joined, 2);
        assert(joined(seq![s], seq![c]) =~= s);
    } else {
        let head = s.take(n as int);
        let rest = s.skip(n as int + 1);
        pieces_join_to_the_text(rest, c);
        let parts = pieces_of(s, c);
        assert(parts.drop_first() =~= pieces_of(rest, c));
        lemma_joined_front(parts, seq![c]);
        assert(s =~= head + seq![c] + rest);
        assert forall|i: int| 0 <= i < parts.len() implies !(#[trigger] parts[i]).contains(c) by {
            if i == 0 {
                assert forall|j: int| 0 <= j < head.len() implies head[j] != c by {
                    assert(head[j] == s[j]);
                }
            } else {
                assert(parts[i] == pieces_of(rest, c)[i - 1]);
            }
        }
    }
}

// ---------------------------------------------------------------------------
// Trimming and words
// ---------------------------------------------------------------------------

/// A class of characters that is trimmed off the ends of a text.
#[derive(Clone, Copy)]
pub enum CharClass {
    /// Unicode white space.
    Space,
    /// The underscore alone.
    Underscore,
    /// Line feed and carriage return.
    LineEnd,
}

/// Whether a character belongs to a class.
pub open spec fn in_class(class: CharClass, c: char) -> bool {
    match class {
        CharClass::Space => is_space(c),
        CharClass::Underscore => c == '_',
        CharClass::LineEnd => c == '\n' || c == '\r',
    }
}

fn belongs(class: CharClass, c: char) -> (r: bool)
    ensures
        r == in_class(class, c),
{
    match class {
        CharClass::Space => c.is_whitespace(),
        CharClass::Underscore => c == '_',
        CharClass::LineEnd => c == '\n' || c == '\r',
    }
}

/// A text without the leading characters of a class.
pub open spec fn trim_front(s: Seq<char>, class: CharClass) -> Seq<char>
    decreases s.len(),
{
    if s.len() > 0 && in_class(class, s[0]) {
        trim_front(s.drop_first(), class)
    } else {
        s
    }
}

/// A text without the trailing characters of a class.
pub open spec fn trim_back(s: Seq<char>, class: CharClass) -> Seq<char>
    decreases s.len(),
{
    if s.len() > 0 && in_class(class, s.last()) {
        trim_back(s.drop_last(), class)
    } else {
        s
    }
}

/// A text without the characters of a class at its ends.
pub open spec fn trimmed(s: Seq<char>, class: CharClass) -> Seq<char> {
    trim_back(trim_front(s, class), class)
}

/// What is left of a text after trimming its end is a prefix of it.
pub proof fn lemma_trim_back_is_prefix(s: Seq<char>, class: CharClass)
    ensures
        trim_back(s, class).len() <= s.len(),
        trim_back(s, class) == s.take(trim_back(s, class).len() as int),
    decreases s.len(),
{
    if s.len() > 0 && in_class(class, s.last()) {
        lemma_trim_back_is_prefix(s.drop_last(), class);
        let n = trim_back(s, class).len() as int;
        assert(s.drop_last().take(n) =~= s.take(n));
    } else {
        assert(s.take(s.len() as int) =~= s);
    }
}

/// What is left of a text after trimming its front is a suffix of it.
pub proof fn lemma_trim_front_is_suffix(s: Seq<char>, class: CharClass)
    ensures
        trim_front(s, class).len() <= s.len(),
        trim_front(s, class) == s.skip(s.len() - trim_front(s, class).len()),
    decreases s.len(),
{
    if s.len() > 0 && in_class(class, s[0]) {
        lemma_trim_front_is_suffix(s.drop_first(), class);
        let n = trim_front(s, class).len() as int;
        assert(s.drop_first().skip(s.len() - 1 - n) =~= s.skip(s.len() - n));
    } else {
        assert(s.skip(0) =~= s);
    }
}

/// Where the trimmed part of the characters from `from` on begins.
fn front_end(chars: &Vec<char>, from: usize, class: CharClass) -> (r: usize)
    requires
        from <= chars@.len(),
    ensures
        from <= r <= chars@.len(),
        trim_front(chars@.skip(from as int), class) == chars@.skip(r as int),
{
    let mut i: usize = from;
    while i < chars.len() && belongs(class, chars[i])
        invariant
            from <= i <= chars@.len(),
            trim_front(chars@.skip(from as int), class) == trim_front(
                chars@.skip(i as int),
                class,
            ),
        decreases chars@.len() - i,
    {
        proof {
            assert(chars@.skip(i as int)[0] == chars@[i as int]);
            assert(chars@.skip(i as int).drop_first() =~= chars@.skip(i + 1));
        }
        i += 1;
    }
    proof {
        if i < chars@.len() {
            assert(chars@.skip(i as int)[0] == chars@[i as int]);
        }
    }
    i
}

/// A string without the trailing characters of a class.
pub fn trim_end(s: &str, class: CharClass) -> (r: String)
    ensures
        r@ == trim_back(s@, class),
{
    let chars = chars_of(s);
    let mut n: usize = chars.len();
    proof {
        assert(chars@.take(n as int) =~= chars@);
    }
    while n > 0 && belongs(class, chars[n - 1])
        invariant
            chars@ == s@,
            n <= chars@.len(),
            trim_back(s@, class) == trim_back(chars@.take(n as int), class),
        decreases n,
    {
        proof {
            assert(chars@.take(n as int).drop_last() =~= chars@.take(n - 1));
        }
        n -= 1;
    }
    proof {
        assert(chars@.subrange(0, n as int) =~= chars@.take(n as int));
    }
    text_of(&chars, 0, n)
}

/// A string without the characters of a class at its ends.
pub fn trim(s: &str, class: CharClass) -> (r: String)
    ensures
        r@ == trimmed(s@, class),
{
    let chars = chars_of(s);
    proof {
        assert(chars@.skip(0) =~= chars@);
    }
    let start = front_end(&chars, 0, class);
    let rest = text_of(&chars, start, chars.len());
    trim_end(rest.as_str(), class)
}

/// How many characters before the first white space.
pub open spec fn word_len(s: Seq<char>) -> nat
    decreases s.len(),
{
    if s.len() == 0 || is_space(s[0]) {
        0
    } else {
        1 + word_len(s.drop_first())
    }
}

pub proof fn lemma_word_len(s: Seq<char>, n: int)
    requires
        0 <= n <= s.len(),
        forall|j: int| 0 <= j < n ==> !is_space(s[j]),
        n < s.len() ==> is_space(s[n]),
    ensures
        word_len(s) == n,
    decreases s.len(),
{
    if s.len() > 0 && n > 0 {
        assert forall|j: int| 0 <= j < n - 1 implies !is_space(s.drop_first()[j]) by {
            assert(!is_space(s[j + 1]));
        }
        lemma_word_len(s.drop_first(), n - 1);
    }
}

/// The words of a text: its longest stretches without white space.
pub open spec fn words_of(s: Seq<char>) -> Seq<Seq<char>>
    decreases s.len(),
{
    let rest = trim_front(s, CharClass::Space);
    let n = word_len(rest);
    if rest.len() == 0 || n == 0 || rest.len() > s.len() || n > rest.len() {
        Seq::empty()
    } else {
        seq![rest.take(n as int)] + words_of(rest.skip(n as int))
    }
}

/// Whether a text can stand as a word: it is not empty and holds no white space.
pub open spec fn is_word(s: Seq<char>) -> bool {
    s.len() > 0 && forall|j: int| 0 <= j < s.len() ==> !is_space(#[trigger] s[j])
}

proof fn lemma_word_is_word(s: Seq<char>)
    ensures
        word_len(s) <= s.len(),
        forall|j: int| 0 <= j < word_len(s) ==> !is_space(#[trigger] s[j]),
    decreases s.len(),
{
    if s.len() > 0 && !is_space(s[0]) {
        lemma_word_is_word(s.drop_first());
        assert forall|j: int| 0 <= j < word_len(s) implies !is_space(#[trigger] s[j]) by {
            if j > 0 {
                assert(s.drop_first()[j - 1] == s[j]);
            }
        }
    }
}

/// The words of a text can stand as words.
pub proof fn lemma_words(s: Seq<char>)
    ensures
        forall|i: int| 0 <= i < words_of(s).len() ==> is_word(#[trigger] words_of(s)[i]),
    decreases s.len(),
{
    let rest = trim_front(s, CharClass::Space);
    let n = word_len(rest);
    if rest.len() == 0 || n == 0 || rest.len() > s.len() || n > rest.len() {
    } else {
        lemma_word_is_word(rest);
        lemma_words(rest.skip(n as int));
        assert forall|i: int| 0 <= i < words_of(s).len() implies is_word(
            #[trigger] words_of(s)[i],
        ) by {
            if i > 0 {
                assert(words_of(s)[i] == words_of(rest.skip(n as int))[i - 1]);
            } else {
                assert(words_of(s)[0] == rest.take(n as int));
            }
        }
    }
}

/// Words joined with spaces are read back as the same words.
pub proof fn joined_words_read_back(parts: Seq<Seq<char>>)
    requires
        forall|i: int| 0 <= i < parts.len() ==> is_word(#[trigger] parts[i]),
    ensures
        words_of(joined(parts, seq![' '])) == parts,
    decreases parts.len(),
{
    let s = joined(parts, seq![' ']);
    if parts.len() == 0 {
        assert(words_of(s) =~= parts);
    } else {
        let word = parts[0];
        assert(is_word(word));
        let more = parts.drop_first();
        assert forall|i: int| 0 <= i < more.len() implies is_word(#[trigger] more[i]) by {
            assert(more[i] == parts[i + 1]);
        }
        joined_words_read_back(more);
        let tail = if parts.len() == 1 {
            Seq::<char>::empty()
        } else {
            seq![' '] + joined(more, seq![' '])
        };
        if parts.len() > 1 {
            lemma_joined_front(parts, seq![' ']);
        }
        assert(s =~= word + tail);
        assert(s[0] == word[0]);
        assert(trim_front(s, CharClass::Space) == s);
        assert forall|j: int| 0 <= j < word.len() implies !is_space(s[j]) by {
            assert(s[j] == word[j]);
        }
        if parts.len() > 1 {
            assert(s[word.len() as int] == ' ');
        }
        lemma_word_len(s, word.len() as int);
        assert(s.take(word.len() as int) =~= word);
        assert(s.skip(word.len() as int) =~= tail);
        if parts.len() == 1 {
            assert(words_of(tail) =~= Seq::<Seq<char>>::empty());
        } else {
            assert(tail[0] == ' ');
            assert(tail.drop_first() =~= joined(more, seq![' ']));
            assert(trim_front(tail, CharClass::Space) == trim_front(
                joined(more, seq![' ']),
                CharClass::Space,
            ));
            lemma_trimmed_words(joined(more, seq![' ']), tail);
        }
        assert(seq![word] + words_of(tail) =~= parts);
    }
}

proof fn lemma_trimmed_words(a: Seq<char>, b: Seq<char>)
    requires
        trim_front(a, CharClass::Space) == trim_front(b, CharClass::Space),
    ensures
        words_of(a) == words_of(b),
{
    lemma_trim_front_is_suffix(a, CharClass::Space);
    lemma_trim_front_is_suffix(b, CharClass::Space);
}

/// The words of a string.
pub fn words(s: &str) -> (r: Vec<String>)
    ensures
        views(r@) == words_of(s@),
{
    let chars = chars_of(s);
    let mut out: Vec<String> = Vec::new();
    let mut at: usize = 0;
    proof {
        assert(chars@.skip(0) =~= chars@);
        assert(views(out@) + words_of(chars@) =~= words_of(chars@));
    }
    loop
        invariant
            chars@ == s@,
            at <= chars@.len(),
            views(out@) + words_of(chars@.skip(at as int)) == words_of(s@),
        decreases chars@.len() - at,
    {
        let start = front_end(&chars, at, CharClass::Space);
        let ghost left = chars@.skip(at as int);
        let ghost rest = chars@.skip(start as int);
        if start == chars.len() {
            proof {
                assert(rest.len() == 0);
                assert(words_of(left) =~= Seq::<Seq<char>>::empty());
                assert(views(out@) + Seq::<Seq<char>>::empty() =~= views(out@));
            }
            return out;
        }
        let mut end: usize = start;
        while end < chars.len() && !chars[end].is_whitespace()
            invariant
                start <= end <= chars@.len(),
                forall|j: int| start <= j < end ==> !is_space(chars@[j]),
            decreases chars@.len() - end,
        {
            end += 1;
        }
        let word = text_of(&chars, start, end);
        proof {
            assert forall|j: int| 0 <= j < end - start implies !is_space(rest[j]) by {
                assert(rest[j] == chars@[start + j]);
            }
            if end < chars@.len() {
                assert(rest[end - start] == chars@[end as int]);
            }
            lemma_word_len(rest, end - start);
            lemma_front_is_not_in_class(left, CharClass::Space);
            assert(rest[0] == chars@[start as int]);
            assert(end > start);
            assert(rest.take(end - start) =~= word@);
            assert(rest.skip(end - start) =~= chars@.skip(end as int));
            assert(views(out@.push(word)) =~= views(out@).push(word@));
            assert(views(out@) + (seq![word@] + words_of(chars@.skip(end as int)))
                =~= views(out@).push(word@) + words_of(chars@.skip(end as int)));
        }
        out.push(word);
        at = end;
    }
}

proof fn lemma_front_is_not_in_class(s: Seq<char>, class: CharClass)
    ensures
        trim_front(s, class).len() > 0 ==> !in_class(class, trim_front(s, class)[0]),
    decreases s.len(),
{
    if s.len() > 0 && in_class(class, s[0]) {
        lemma_front_is_not_in_class(s.drop_first(), class);
    }
}

// ---------------------------------------------------------------------------
// Numbers
// ---------------------------------------------------------------------------

/// The decimal digit of a number below ten.
pub open spec fn digit(n: nat) -> char {
    (48 + n) as char
}

/// A number in decimal notation.
pub open spec fn decimal(n: nat) -> Seq<char>
    decreases n,
{
    if n < 10 {
        seq![digit(n)]
    } else {
        decimal(n / 10).push(digit(n % 10))
    }
}

/// A signed number in decimal notation.
pub open spec fn signed_decimal(n: int) -> Seq<char> {
    if n < 0 {
        seq!['-'] + decimal((-n) as nat)
    } else {
        decimal(n as nat)
    }
}

/// A number in decimal notation.
pub fn decimal_text(n: u64) -> (r: String)
    ensures
        r@ == decimal(n as nat),
    decreases n,
{
    let mut out = if n < 10 {
        String::new()
    } else {
        decimal_text(n / 10)
    };
    let last: u8 = (n % 10) as u8;
    out.push((48 + last) as char);
    proof {
        if n < 10 {
            assert(out@ =~= seq![digit(n as nat)]);
        }
    }
    out
}

/// Different numbers have different decimal notations.
pub proof fn decimal_notation_is_unique(a: nat, b: nat)
    requires
        decimal(a) == decimal(b),
    ensures
        a == b,
    decreases a + b,
{
    let s = decimal(a);
    assert(s.last() == decimal(b).last());
    if a < 10 && b < 10 {
        assert(decimal(a)[0] == decimal(b)[0]);
    } else if a < 10 {
        lemma_decimal_not_empty(b / 10);
        assert(decimal(a).len() == 1);
    } else if b < 10 {
        lemma_decimal_not_empty(a / 10);
        assert(decimal(b).len() == 1);
    } else {
        assert(decimal(a).drop_last() =~= decimal(a / 10));
        assert(decimal(b).drop_last() =~= decimal(b / 10));
        decimal_notation_is_unique(a / 10, b / 10);
        assert(decimal(a).last() == digit(a % 10));
        assert(decimal(b).last() == digit(b % 10));
    }
}

proof fn lemma_decimal_not_empty(n: nat)
    ensures
        decimal(n).len() > 0,
    decreases n,
{
    if n >= 10 {
        lemma_decimal_not_empty(n / 10);
    }
}

/// A text with spaces behind it up to a width.
pub open spec fn padded(s: Seq<char>, width: nat) -> Seq<char> {
    if s.len() >= width {
        s
    } else {
        s + Seq::new((width - s.len()) as nat, |i: int| ' ')
    }
}

/// A string with spaces behind it up to a width.
pub fn pad(s: &str, width: usize) -> (r: String)
    ensures
        r@ == padded(s@, width as nat),
{
    let mut n: usize = chars_of(s).len();
    let mut out = s.to_owned();
    proof {
        if s@.len() < width {
            assert(out@ =~= s@ + Seq::new(0, |i: int| ' '));
        }
    }
    while n < width
        invariant
            s@.len() <= n,
            s@.len() <= width ==> n <= width,
            s@.len() < width ==> out@ == s@ + Seq::new((n - s@.len()) as nat, |i: int| ' '),
            s@.len() >= width ==> out@ == s@ && n == s@.len(),
        decreases width - n,
    {
        out.push(' ');
        n += 1;
        proof {
            assert(out@ =~= s@ + Seq::new((n - s@.len()) as nat, |i: int| ' '));
        }
    }
    out
}

} // verus!
