//! Text as sequences of characters: the comparisons and searches that the
//! rest of the library states its rules in.

use vstd::prelude::*;

verus! {

/// `needle` occurs in `hay` at position `at`.
pub open spec fn occurs_at(hay: Seq<char>, needle: Seq<char>, at: int) -> bool {
    0 <= at && at + needle.len() <= hay.len() && hay.subrange(at, at + needle.len()) == needle
}

/// `needle` occurs somewhere in `hay`.
pub open spec fn occurs_in(hay: Seq<char>, needle: Seq<char>) -> bool {
    exists|at: int| occurs_at(hay, needle, at)
}

/// `hay` ends with `tail`.
pub open spec fn ends_in(hay: Seq<char>, tail: Seq<char>) -> bool {
    tail.len() <= hay.len() && hay.skip(hay.len() - tail.len()) == tail
}

/// `text` with every occurrence of `from` replaced by `to`, found from left
/// to right, one occurrence beginning only after the one before it ended.
pub open spec fn replaced(text: Seq<char>, from: Seq<char>, to: Seq<char>) -> Seq<char>
    recommends
        from.len() > 0,
    decreases text.len(),
{
    if from.len() == 0 || text.len() < from.len() {
        text
    } else if text.take(from.len() as int) == from {
        to + replaced(text.skip(from.len() as int), from, to)
    } else {
        seq![text[0]] + replaced(text.skip(1), from, to)
    }
}

/// Whether two strings hold the same characters.
pub fn same_text(a: &str, b: &str) -> (same: bool)
    ensures
        same == (a@ == b@),
{
    let x = a.as_bytes();
    let y = b.as_bytes();
    proof {
        vstd::utf8::encode_utf8_decode_utf8(a@);
        vstd::utf8::encode_utf8_decode_utf8(b@);
    }
    if x.len() != y.len() {
        return false;
    }
    let mut i: usize = 0;
    while i < x.len()
        invariant
            i <= x@.len(),
            x@.len() == y@.len(),
            x@ == vstd::utf8::encode_utf8(a@),
            y@ == vstd::utf8::encode_utf8(b@),
            x@.take(i as int) == y@.take(i as int),
        decreases x@.len() - i,
    {
        if x[i] != y[i] {
            proof {
                if a@ == b@ {
                    assert(x@[i as int] == y@[i as int]);
                }
            }
            return false;
        }
        proof {
            assert(x@.take(i + 1) =~= x@.take(i as int).push(x@[i as int]));
            assert(y@.take(i + 1) =~= y@.take(i as int).push(y@[i as int]));
        }
        i += 1;
    }
    proof {
        assert(x@.take(x@.len() as int) =~= x@);
        assert(y@.take(y@.len() as int) =~= y@);
    }
    true
}

/// Whether `needle` stands in `hay` at position `at`.
fn stands_at(hay: &Vec<char>, needle: &Vec<char>, at: usize) -> (found: bool)
    requires
        at + needle@.len() <= hay@.len(),
    ensures
        found == occurs_at(hay@, needle@, at as int),
{
    let mut i: usize = 0;
    let len: usize = hay.len();
    proof {
        assert(hay@.subrange(at as int, at as int) =~= needle@.take(0));
    }
    while i < needle.len()
        invariant
            i <= needle@.len(),
            len == hay@.len(),
            at + needle@.len() <= len,
            hay@.subrange(at as int, at + i) == needle@.take(i as int),
        decreases needle@.len() - i,
    {
        if hay[at + i] != needle[i] {
            proof {
                if occurs_at(hay@, needle@, at as int) {
                    assert(hay@.subrange(at as int, at + needle@.len())[i as int] == needle@[i as int]);
                }
            }
            return false;
        }
        proof {
            assert(hay@.subrange(at as int, at + i + 1) =~= hay@.subrange(at as int, at + i).push(
                hay@[at + i],
            ));
            assert(needle@.take(i + 1) =~= needle@.take(i as int).push(needle@[i as int]));
        }
        i += 1;
    }
    proof {
        assert(needle@.take(needle@.len() as int) =~= needle@);
    }
    true
}

/// Whether `hay` ends with `tail`.
pub fn text_ends_with(hay: &str, tail: &str) -> (found: bool)
    ensures
        found == ends_in(hay@, tail@),
{
    let h = chars_of(hay);
    let t = chars_of(tail);
    if t.len() > h.len() {
        return false;
    }
    let at: usize = h.len() - t.len();
    let found = stands_at(&h, &t, at);
    proof {
        assert(h@.subrange(at as int, at + t@.len()) =~= h@.skip(h@.len() - t@.len()));
    }
    found
}

/// Whether `needle` occurs in `hay`.
pub fn text_contains(hay: &str, needle: &str) -> (found: bool)
    ensures
        found == occurs_in(hay@, needle@),
{
    let h = chars_of(hay);
    let n = chars_of(needle);
    if n.len() > h.len() {
        return false;
    }
    let last: usize = h.len() - n.len();
    let mut at: usize = 0;
    loop
        invariant
            at <= last,
            last + n@.len() == h@.len(),
            h@ == hay@,
            n@ == needle@,
            forall|before: int| 0 <= before < at ==> !occurs_at(h@, n@, before),
        decreases last - at,
    {
        if stands_at(&h, &n, at) {
            return true;
        }
        if at == last {
            return false;
        }
        at += 1;
    }
}

/// `text` with every occurrence of `from` replaced by `to`, where `from`
/// is not empty.
fn replace_chars(text: &Vec<char>, from: &Vec<char>, to: &Vec<char>) -> (out: Vec<char>)
    requires
        from@.len() > 0,
    ensures
        out@ == replaced(text@, from@, to@),
{
    let mut out: Vec<char> = Vec::new();
    let mut i: usize = 0;
    proof {
        assert(text@.skip(0) =~= text@);
    }
    while i < text.len()
        invariant
            i <= text@.len(),
            from@.len() > 0,
            replaced(text@, from@, to@) == out@ + replaced(text@.skip(i as int), from@, to@),
        decreases text@.len() - i,
    {
        let ghost rest = text@.skip(i as int);
        let ghost done = out@;
        if from.len() <= text.len() - i && stands_at(text, from, i) {
            let mut k: usize = 0;
            while k < to.len()
                invariant
                    k <= to@.len(),
                    out@ == done + to@.take(k as int),
                decreases to@.len() - k,
            {
                out.push(to[k]);
                proof {
                    assert(to@.take(k + 1) =~= to@.take(k as int).push(to@[k as int]));
                }
                k += 1;
            }
            proof {
                assert(to@.take(to@.len() as int) =~= to@);
                assert(rest.take(from@.len() as int) =~= text@.subrange(
                    i as int,
                    i + from@.len(),
                ));
                assert(rest.skip(from@.len() as int) =~= text@.skip(i + from@.len()));
                assert(done + (to@ + replaced(rest.skip(from@.len() as int), from@, to@)) =~= (done
                    + to@) + replaced(rest.skip(from@.len() as int), from@, to@));
            }
            i += from.len();
        } else {
            out.push(text[i]);
            proof {
                assert(rest.skip(1) =~= text@.skip(i + 1));
                assert(rest[0] == text@[i as int]);
                if rest.len() >= from@.len() {
                    assert(rest.take(from@.len() as int) =~= text@.subrange(
                        i as int,
                        i + from@.len(),
                    ));
                } else {
                    assert(rest =~= seq![rest[0]] + rest.skip(1));
                }
                assert(done + (seq![rest[0]] + replaced(rest.skip(1), from@, to@)) =~= done.push(
                    rest[0],
                ) + replaced(rest.skip(1), from@, to@));
            }
            i += 1;
        }
    }
    proof {
        assert(text@.skip(text@.len() as int) =~= Seq::<char>::empty());
        assert(out@ + Seq::<char>::empty() =~= out@);
    }
    out
}

/// `a`, a dot, and `b`.
pub open spec fn dotted(a: Seq<char>, b: Seq<char>) -> Seq<char> {
    a + seq!['.'] + b
}

/// The key `prefix.suffix`.
pub fn dotted_key(prefix: &str, suffix: &str) -> (key: String)
    ensures
        key@ == dotted(prefix@, suffix@),
{
    let mut key = String::from_str(prefix);
    proof {
        reveal_strlit(".");
    }
    key.append(".");
    key.append(suffix);
    assert(key@ =~= dotted(prefix@, suffix@));
    key
}

pub(crate) fn is_word_char(c: char) -> (r: bool)
    ensures
        r == word_char(c),
{
    (c >= 'a' && c <= 'z') || (c >= 'A' && c <= 'Z') || (c >= '0' && c <= '9') || c == '_'
}

/// An ASCII letter, an ASCII digit or an underscore.
pub open spec fn word_char(c: char) -> bool {
    ('a' <= c && c <= 'z') || ('A' <= c && c <= 'Z') || ('0' <= c && c <= '9') || c == '_'
}

/// A character that counts as white space: one with the Unicode property
/// `White_Space`.
pub open spec fn white(c: char) -> bool {
    let n = c as u32;
    (0x09 <= n && n <= 0x0d) || n == 0x20 || n == 0x85 || n == 0xa0 || n == 0x1680 || (0x2000 <= n
        && n <= 0x200a) || n == 0x2028 || n == 0x2029 || n == 0x202f || n == 0x205f || n == 0x3000
}

/// `text` without the white space at its end.
pub open spec fn trimmed_end(text: Seq<char>) -> Seq<char>
    decreases text.len(),
{
    if text.len() > 0 && white(text.last()) {
        trimmed_end(text.drop_last())
    } else {
        text
    }
}

/// `text` without the white space at its beginning.
pub open spec fn trimmed_start(text: Seq<char>) -> Seq<char>
    decreases text.len(),
{
    if text.len() > 0 && white(text[0]) {
        trimmed_start(text.skip(1))
    } else {
        text
    }
}

/// `text` without the white space at either end.
pub open spec fn trimmed(text: Seq<char>) -> Seq<char> {
    trimmed_end(trimmed_start(text))
}

fn is_white(c: char) -> (r: bool)
    ensures
        r == white(c),
{
    let n = c as u32;
    (0x09 <= n && n <= 0x0d) || n == 0x20 || n == 0x85 || n == 0xa0 || n == 0x1680 || (0x2000 <= n
        && n <= 0x200a) || n == 0x2028 || n == 0x2029 || n == 0x202f || n == 0x205f || n == 0x3000
}

/// `text` without the white space at either end.
pub fn text_trim(text: &str) -> (out: String)
    ensures
        out@ == trimmed(text@),
{
    let chars = chars_of(text);
    let mut start: usize = 0;
    proof {
        assert(chars@.skip(0) =~= chars@);
    }
    while start < chars.len() && is_white(chars[start])
        invariant
            start <= chars@.len(),
            trimmed_start(chars@) == trimmed_start(chars@.skip(start as int)),
        decreases chars@.len() - start,
    {
        proof {
            assert(chars@.skip(start as int).skip(1) =~= chars@.skip(start + 1));
        }
        start += 1;
    }
    let ghost kept = chars@.skip(start as int);
    proof {
        if start < chars@.len() {
            assert(kept[0] == chars@[start as int]);
        }
        assert(trimmed_start(chars@) == kept);
    }
    let mut end: usize = chars.len();
    proof {
        assert(chars@.subrange(start as int, end as int) =~= kept);
    }
    while end > start && is_white(chars[end - 1])
        invariant
            start <= end <= chars@.len(),
            trimmed_end(kept) == trimmed_end(chars@.subrange(start as int, end as int)),
        decreases end - start,
    {
        proof {
            assert(chars@.subrange(start as int, end as int).drop_last() =~= chars@.subrange(
                start as int,
                end - 1,
            ));
        }
        end -= 1;
    }
    proof {
        let left = chars@.subrange(start as int, end as int);
        if end > start {
            assert(left.last() == chars@[end - 1]);
        }
        assert(trimmed_end(left) == left);
    }
    let mut out: Vec<char> = Vec::new();
    let mut i: usize = start;
    while i < end
        invariant
            start <= i <= end <= chars@.len(),
            out@ == chars@.subrange(start as int, i as int),
        decreases end - i,
    {
        out.push(chars[i]);
        proof {
            assert(chars@.subrange(start as int, i + 1) =~= chars@.subrange(
                start as int,
                i as int,
            ).push(chars@[i as int]));
        }
        i += 1;
    }
    text_from(&out)
}

/// Calls `String::push`.
#[verifier::external_body]
pub(crate) fn push_char(text: &mut String, c: char)
    ensures
        final(text)@ == old(text)@.push(c),
{
    text.push(c)
}

/// The characters of `text` in their order.
pub fn chars_of(text: &str) -> (chars: Vec<char>)
    ensures
        chars@ == text@,
{
    let mut out: Vec<char> = Vec::new();
    for c in it: text.chars()
        invariant
            it.seq() == text@,
            out@ == it.seq().take(it.index() as int),
    {
        proof {
            assert(it.seq().take(it.index() + 1) =~= it.seq().take(it.index() as int).push(c));
        }
        out.push(c);
    }
    proof {
        assert(text@.take(text@.len() as int) =~= text@);
    }
    out
}

/// The text made of `chars`.
pub fn text_from(chars: &Vec<char>) -> (text: String)
    ensures
        text@ == chars@,
{
    let mut out = String::new();
    let mut i: usize = 0;
    while i < chars.len()
        invariant
            i <= chars@.len(),
            out@ == chars@.take(i as int),
        decreases chars@.len() - i,
    {
        push_char(&mut out, chars[i]);
        proof {
            assert(chars@.take(i + 1) =~= chars@.take(i as int).push(chars@[i as int]));
        }
        i += 1;
    }
    assert(chars@.take(chars@.len() as int) =~= chars@);
    out
}

/// `text` with every occurrence of `from` replaced by `to`, found from
/// left to right; a copy of `text` where `from` is empty.
pub fn replace_all(text: &str, from: &str, to: &str) -> (out: String)
    ensures
        out@ == replaced(text@, from@, to@),
{
    if from.is_empty() {
        String::from_str(text)
    } else {
        let out = replace_chars(&chars_of(text), &chars_of(from), &chars_of(to));
        text_from(&out)
    }
}

/// Replacing by something no longer makes no text longer.
pub proof fn lemma_replace_not_longer(text: Seq<char>, from: Seq<char>, to: Seq<char>)
    requires
        to.len() <= from.len(),
    ensures
        replaced(text, from, to).len() <= text.len(),
    decreases text.len(),
{
    if from.len() == 0 || text.len() < from.len() {
    } else if text.take(from.len() as int) == from {
        lemma_replace_not_longer(text.skip(from.len() as int), from, to);
    } else {
        lemma_replace_not_longer(text.skip(1), from, to);
    }
}

/// Replacing by something shorter makes a text shorter where there is
/// anything to replace.
pub proof fn lemma_replace_shrinks(text: Seq<char>, from: Seq<char>, to: Seq<char>)
    requires
        to.len() < from.len(),
        occurs_in(text, from),
    ensures
        replaced(text, from, to).len() < text.len(),
    decreases text.len(),
{
    let at = choose|at: int| occurs_at(text, from, at);
    assert(occurs_at(text, from, at));
    if text.take(from.len() as int) == from {
        lemma_replace_not_longer(text.skip(from.len() as int), from, to);
    } else {
        assert(at > 0) by {
            if at == 0 {
                assert(text.subrange(0, from.len() as int) =~= text.take(from.len() as int));
            }
        }
        assert(occurs_at(text.skip(1), from, at - 1)) by {
            assert(text.skip(1).subrange(at - 1, at - 1 + from.len()) =~= text.subrange(
                at,
                at + from.len(),
            ));
        }
        lemma_replace_shrinks(text.skip(1), from, to);
    }
}

} // verus!
