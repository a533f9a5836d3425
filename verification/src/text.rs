//! Strings as sequences of characters: the predicates the search is stated in,
//! and the string operations that it is built on. A string is cut only at
//! ASCII characters, whose bytes are found in its UTF-8 form; that a cut there
//! is a cut between characters is proved from the shape of UTF-8.

use vstd::prelude::*;
use vstd::string::*;
use vstd::utf8::*;

verus! {

/// `needle` stands in `hay` at index `at`.
pub open spec fn occurs_at<A>(needle: Seq<A>, hay: Seq<A>, at: int) -> bool {
    0 <= at && at + needle.len() <= hay.len() && hay.subrange(at, at + needle.len()) == needle
}

/// `needle` occurs in `hay` as a contiguous run of characters.
pub open spec fn is_substring(needle: Seq<char>, hay: Seq<char>) -> bool {
    exists|at: int| occurs_at(needle, hay, at)
}

/// Index of the first line feed in `s`, or `s.len()` where it holds none.
pub open spec fn line_end(s: Seq<char>) -> int
    decreases s.len(),
{
    if s.len() == 0 || s[0] == '\n' {
        0
    } else {
        1 + line_end(s.drop_first())
    }
}

/// The text of a line that a line feed ended: a carriage return directly before
/// the line feed belongs to the line ending, not to the line.
pub open spec fn without_cr(line: Seq<char>) -> Seq<char> {
    if line.len() > 0 && line.last() == '\r' {
        line.drop_last()
    } else {
        line
    }
}

/// The lines of a text. A line ends at a line feed or at a carriage return
/// followed by a line feed; the ending is not part of the line. What follows the
/// last line feed is a line of its own unless it is empty, and keeps a trailing
/// carriage return.
pub open spec fn lines_of(s: Seq<char>) -> Seq<Seq<char>>
    decreases s.len(),
{
    let end = line_end(s);
    if s.len() == 0 {
        Seq::empty()
    } else if 0 <= end < s.len() {
        seq![without_cr(s.take(end))] + lines_of(s.skip(end + 1))
    } else {
        seq![s]
    }
}

/// `s` with `to` in the place of every occurrence of the character `from`.
pub open spec fn with_char_replaced(s: Seq<char>, from: char, to: Seq<char>) -> Seq<char>
    decreases s.len(),
{
    if s.len() == 0 {
        s
    } else if s[0] == from {
        to + with_char_replaced(s.drop_first(), from, to)
    } else {
        seq![s[0]] + with_char_replaced(s.drop_first(), from, to)
    }
}

/// The lowercase form of a string as `str::to_lowercase` computes it from the
/// Unicode character tables.
pub uninterp spec fn lowercase(s: Seq<char>) -> Seq<char>;

/// `str::to_lowercase`: the result is the lowercase form of `s`, which is a
/// function of the characters of `s` alone.
#[verifier::external_body]
pub(crate) fn to_lowercase(s: &str) -> (r: String)
    ensures
        r@ == lowercase(s@),
{
    s.to_lowercase()
}

/// The UTF-8 form of two strings joined is the two UTF-8 forms joined.
proof fn lemma_encode_concat(a: Seq<char>, b: Seq<char>)
    ensures
        encode_utf8(a + b) == encode_utf8(a) + encode_utf8(b),
    decreases a.len(),
{
    if a.len() == 0 {
        assert(a + b =~= b);
        assert(encode_utf8(a) + encode_utf8(b) =~= encode_utf8(b));
    } else {
        lemma_encode_concat(a.drop_first(), b);
        assert((a + b).drop_first() =~= a.drop_first() + b);
        assert(encode_utf8(a + b) =~= encode_utf8(a) + encode_utf8(b));
    }
}

/// An ASCII character is one byte in UTF-8: its own code.
proof fn lemma_encode_ascii(c: u8)
    requires
        c < 128,
    ensures
        encode_utf8(seq![c as char]) == seq![c],
{
    let one = seq![c as char];
    assert(is_ascii_chars(one));
    is_ascii_chars_encode_utf8(one);
    assert(one[0] as u8 == encode_utf8(one)[0]);
    assert(encode_utf8(one) =~= seq![c]);
}

/// Where a string holds an ASCII character, its UTF-8 form holds that byte.
proof fn lemma_char_gives_byte(s: Seq<char>, at: int, c: u8)
    requires
        c < 128,
        0 <= at < s.len(),
        s[at] == c as char,
    ensures
        encode_utf8(s).contains(c),
        at == s.len() - 1 ==> encode_utf8(s).len() > 0 && encode_utf8(s).last() == c,
{
    let before = s.take(at);
    let after = s.skip(at + 1);
    assert(s =~= before + seq![c as char] + after);
    lemma_encode_concat(before + seq![c as char], after);
    lemma_encode_concat(before, seq![c as char]);
    lemma_encode_ascii(c);
    let bytes = encode_utf8(s);
    assert(bytes[encode_utf8(before).len() as int] == c);
    if at == s.len() - 1 {
        assert(after =~= Seq::empty());
        assert(encode_utf8(after) =~= Seq::empty());
    }
}

/// A string cut between two characters of its UTF-8 form is the two parts
/// joined.
proof fn lemma_cut(s: Seq<char>, a: Seq<char>, b: Seq<char>, mid: int)
    requires
        is_char_boundary(encode_utf8(s), mid),
        encode_utf8(a) == encode_utf8(s).subrange(0, mid),
        encode_utf8(b) == encode_utf8(s).subrange(mid, encode_utf8(s).len() as int),
    ensures
        s == a + b,
{
    let bytes = encode_utf8(s);
    encode_utf8_valid_utf8(s);
    decode_utf8_split(bytes, mid);
    encode_utf8_decode_utf8(s);
    encode_utf8_decode_utf8(a);
    encode_utf8_decode_utf8(b);
}

/// In valid UTF-8 a character starts at every ASCII byte, and the next one
/// right after it.
proof fn lemma_ascii_boundaries(bytes: Seq<u8>, at: int)
    requires
        valid_utf8(bytes),
        0 <= at < bytes.len(),
        bytes[at] < 128,
    ensures
        is_char_boundary(bytes, at),
        is_char_boundary(bytes.subrange(at, bytes.len() as int), 1),
{
    is_char_boundary_iff_not_is_continuation_byte(bytes, at);
    valid_utf8_split(bytes, at);
    let tail = bytes.subrange(at, bytes.len() as int);
    assert(tail[0] == bytes[at]);
    assert(valid_utf8(pop_first_scalar(tail)));
    reveal_with_fuel(is_char_boundary, 2);
}

/// Where valid UTF-8 begins with valid UTF-8, a character starts right after
/// that beginning.
proof fn lemma_prefix_boundary(bytes: Seq<u8>, head: Seq<u8>)
    requires
        valid_utf8(bytes),
        valid_utf8(head),
        head.len() <= bytes.len(),
        bytes.subrange(0, head.len() as int) == head,
    ensures
        is_char_boundary(bytes, head.len() as int),
    decreases head.len(),
{
    if head.len() > 0 {
        assert(bytes[0] == bytes.subrange(0, head.len() as int)[0]);
        let k = length_of_first_scalar(head);
        assert(k == length_of_first_scalar(bytes));
        assert(1 <= k <= head.len());
        let rest = pop_first_scalar(bytes);
        let head_rest = pop_first_scalar(head);
        assert(rest.subrange(0, head_rest.len() as int) =~= head_rest) by {
            assert forall|j: int| 0 <= j < head_rest.len() implies rest[j] == head_rest[j] by {
                assert(bytes.subrange(0, head.len() as int)[k + j] == head[k + j]);
            }
        }
        lemma_prefix_boundary(rest, head_rest);
    }
}

/// Where the UTF-8 form of `needle` stands in that of `hay`, `needle` is a
/// substring of `hay`.
proof fn lemma_bytes_occur(needle: Seq<char>, hay: Seq<char>, at: int)
    requires
        occurs_at(encode_utf8(needle), encode_utf8(hay), at),
    ensures
        is_substring(needle, hay),
{
    let bytes = encode_utf8(hay);
    let part = encode_utf8(needle);
    encode_utf8_valid_utf8(hay);
    encode_utf8_valid_utf8(needle);
    encode_utf8_decode_utf8(hay);
    encode_utf8_decode_utf8(needle);
    if part.len() == 0 {
        assert(hay.subrange(0, 0) =~= needle);
        assert(occurs_at(needle, hay, 0));
    } else {
        assert(bytes.subrange(at, at + part.len())[0] == part[0]);
        is_char_boundary_iff_not_is_continuation_byte(part, 0);
        is_char_boundary_iff_not_is_continuation_byte(bytes, at);
        valid_utf8_split(bytes, at);
        decode_utf8_split(bytes, at);
        let tail = bytes.subrange(at, bytes.len() as int);
        assert(tail.subrange(0, part.len() as int) =~= part);
        lemma_prefix_boundary(tail, part);
        decode_utf8_split(tail, part.len() as int);
        let before = decode_utf8(bytes.subrange(0, at));
        let after = decode_utf8(tail.subrange(part.len() as int, tail.len() as int));
        assert(hay == before + (needle + after));
        assert(hay.subrange(before.len() as int, (before.len() + needle.len()) as int) =~= needle);
        assert(occurs_at(needle, hay, before.len() as int));
    }
}

/// Where `needle` is a substring of `hay`, its UTF-8 form stands in that of
/// `hay`.
proof fn lemma_chars_occur(needle: Seq<char>, hay: Seq<char>, at: int)
    requires
        occurs_at(needle, hay, at),
    ensures
        occurs_at(encode_utf8(needle), encode_utf8(hay), encode_utf8(hay.take(at)).len() as int),
{
    let before = hay.take(at);
    let after = hay.skip(at + needle.len());
    assert(hay =~= before + needle + after);
    lemma_encode_concat(before + needle, after);
    lemma_encode_concat(before, needle);
    let start = encode_utf8(before).len() as int;
    assert(encode_utf8(hay).subrange(start, start + encode_utf8(needle).len()) =~= encode_utf8(
        needle,
    ));
}

/// A run of characters without a line feed ends at its own end, and at the
/// line feed where one follows it.
proof fn lemma_line_end(line: Seq<char>, after: Seq<char>)
    requires
        !line.contains('\n'),
    ensures
        line_end(line + seq!['\n'] + after) == line.len(),
        line_end(line) == line.len(),
    decreases line.len(),
{
    let s = line + seq!['\n'] + after;
    if line.len() > 0 {
        assert(line[0] != '\n') by {
            assert(line.contains(line[0]));
        }
        let rest = line.drop_first();
        assert(!rest.contains('\n')) by {
            if rest.contains('\n') {
                let j = choose|j: int| 0 <= j < rest.len() && rest[j] == '\n';
                assert(line[j + 1] == '\n');
            }
        }
        lemma_line_end(rest, after);
        assert(s.drop_first() =~= rest + seq!['\n'] + after);
    }
}

/// Replacing leaves a text without `from` as it is, and goes on behind the
/// first `from`.
proof fn lemma_replaced(before: Seq<char>, after: Seq<char>, from: char, to: Seq<char>)
    requires
        !before.contains(from),
    ensures
        with_char_replaced(before, from, to) == before,
        with_char_replaced(before + seq![from] + after, from, to) == before + to
            + with_char_replaced(after, from, to),
    decreases before.len(),
{
    let whole = before + seq![from] + after;
    if before.len() == 0 {
        assert(whole.drop_first() =~= after);
        assert(before + to + with_char_replaced(after, from, to) =~= to + with_char_replaced(
            after,
            from,
            to,
        ));
    } else {
        let rest = before.drop_first();
        assert(before[0] != from) by {
            assert(before.contains(before[0]));
        }
        assert(!rest.contains(from)) by {
            if rest.contains(from) {
                let j = choose|j: int| 0 <= j < rest.len() && rest[j] == from;
                assert(before[j + 1] == from);
            }
        }
        lemma_replaced(rest, after, from, to);
        assert(whole.drop_first() =~= rest + seq![from] + after);
        assert(seq![before[0]] + rest =~= before);
        assert(seq![before[0]] + (rest + to + with_char_replaced(after, from, to)) =~= before + to
            + with_char_replaced(after, from, to));
    }
}

/// Whether two strings hold the same characters.
pub fn str_eq(a: &str, b: &str) -> (r: bool)
    ensures
        r == (a@ == b@),
{
    let x = a.as_bytes();
    let y = b.as_bytes();
    let n = x.len();
    if n != y.len() {
        return false;
    }
    let mut i: usize = 0;
    while i < n
        invariant
            i <= n,
            n == x@.len(),
            n == y@.len(),
            x@ == encode_utf8(a@),
            y@ == encode_utf8(b@),
            forall|j: int| 0 <= j < i ==> x@[j] == y@[j],
        decreases n - i,
    {
        if x[i] != y[i] {
            return false;
        }
        i += 1;
    }
    proof {
        assert(x@ =~= y@);
        encode_utf8_decode_utf8(a@);
        encode_utf8_decode_utf8(b@);
    }
    true
}

/// Cuts `s` at its first ASCII character `c`: what stands before it, and what
/// stands after it. `None` where `s` does not hold `c`.
pub(crate) fn split_once_ascii<'a>(s: &'a str, c: u8) -> (r: Option<(&'a str, &'a str)>)
    requires
        c < 128,
    ensures
        match r {
            Some((before, after)) => s@ == before@ + seq![c as char] + after@ && !before@.contains(
                c as char,
            ),
            None => !s@.contains(c as char),
        },
{
    let bytes = s.as_bytes();
    let n = bytes.len();
    let mut i: usize = 0;
    while i < n && bytes[i] != c
        invariant
            i <= n,
            n == bytes@.len(),
            forall|j: int| 0 <= j < i ==> bytes@[j] != c,
        decreases n - i,
    {
        i += 1;
    }
    if i == n {
        proof {
            if s@.contains(c as char) {
                let k = choose|k: int| 0 <= k < s@.len() && s@[k] == c as char;
                lemma_char_gives_byte(s@, k, c);
            }
        }
        return None;
    }
    proof {
        encode_utf8_valid_utf8(s@);
        lemma_ascii_boundaries(bytes@, i as int);
    }
    let (before, tail) = s.split_at(i);
    let (mark, after) = tail.split_at(1);
    proof {
        lemma_cut(s@, before@, tail@, i as int);
        lemma_cut(tail@, mark@, after@, 1);
        lemma_encode_ascii(c);
        encode_utf8_decode_utf8(mark@);
        encode_utf8_decode_utf8(seq![c as char]);
        assert(encode_utf8(mark@) =~= seq![c]);
        assert(mark@ == seq![c as char]);
        assert(s@ =~= before@ + seq![c as char] + after@);
        if before@.contains(c as char) {
            let k = choose|k: int| 0 <= k < before@.len() && before@[k] == c as char;
            lemma_char_gives_byte(before@, k, c);
        }
    }
    Some((before, after))
}

/// A line without the carriage return at its end, if it has one there.
fn strip_cr<'a>(line: &'a str) -> (r: &'a str)
    ensures
        r@ == without_cr(line@),
{
    let bytes = line.as_bytes();
    let n = bytes.len();
    proof {
        encode_utf8_valid_utf8(line@);
        encode_utf8_decode_utf8(line@);
    }
    if n > 0 && bytes[n - 1] == 13 {
        proof {
            lemma_ascii_boundaries(bytes@, n - 1);
        }
        let (head, cr) = line.split_at(n - 1);
        proof {
            lemma_cut(line@, head@, cr@, n - 1);
            lemma_encode_ascii(13);
            encode_utf8_decode_utf8(cr@);
            encode_utf8_decode_utf8(seq![13u8 as char]);
            assert(encode_utf8(cr@) =~= seq![13u8]);
            assert(cr@ == seq!['\r']);
            assert(line@.drop_last() =~= head@);
        }
        head
    } else {
        proof {
            if line@.len() > 0 && line@.last() == '\r' {
                lemma_char_gives_byte(line@, line@.len() - 1, 13);
            }
        }
        line
    }
}

/// The lines of `contents` in order, each a slice of it.
pub fn lines<'a>(contents: &'a str) -> (r: Vec<&'a str>)
    ensures
        r.deep_view() == lines_of(contents@),
{
    let mut out: Vec<&'a str> = Vec::new();
    let mut rest = contents;
    assert(out.deep_view() + lines_of(rest@) =~= lines_of(contents@));
    loop
        invariant_except_break
            out.deep_view() + lines_of(rest@) == lines_of(contents@),
        ensures
            out.deep_view() == lines_of(contents@),
        decreases rest@.len(),
    {
        let ghost done = out.deep_view();
        if rest.is_empty() {
            assert(done + lines_of(rest@) =~= done);
            break;
        }
        match split_once_ascii(rest, 10) {
            None => {
                proof {
                    lemma_line_end(rest@, Seq::empty());
                }
                out.push(rest);
                assert(out.deep_view() =~= done + lines_of(rest@));
                break;
            },
            Some((line, after)) => {
                let text = strip_cr(line);
                proof {
                    lemma_line_end(line@, after@);
                    assert(rest@.take(line@.len() as int) =~= line@);
                    assert(rest@.skip((line@.len() + 1) as int) =~= after@);
                }
                out.push(text);
                assert(out.deep_view() =~= done.push(text@));
                assert(out.deep_view() + lines_of(after@) =~= done + lines_of(rest@));
                rest = after;
            },
        }
    }
    out
}

/// Whether `needle` stands in `hay` at index `at`.
fn bytes_occur_at(hay: &[u8], needle: &[u8], at: usize) -> (r: bool)
    requires
        at + needle@.len() <= hay@.len(),
    ensures
        r == occurs_at(needle@, hay@, at as int),
{
    let n = needle.len();
    let total = hay.len();
    let mut j: usize = 0;
    while j < n
        invariant
            j <= n,
            n == needle@.len(),
            at + n <= total == hay@.len(),
            forall|k: int| 0 <= k < j ==> hay@[at + k] == needle@[k],
        decreases n - j,
    {
        if hay[at + j] != needle[j] {
            assert(hay@.subrange(at as int, at + n)[j as int] != needle@[j as int]);
            return false;
        }
        j += 1;
    }
    assert(hay@.subrange(at as int, at + n) =~= needle@);
    true
}

/// Whether `needle` is a substring of `hay`.
pub fn contains(hay: &str, needle: &str) -> (r: bool)
    ensures
        r == is_substring(needle@, hay@),
{
    let h = hay.as_bytes();
    let n = needle.as_bytes();
    if n.len() <= h.len() {
        let last = h.len() - n.len();
        let mut i: usize = 0;
        loop
            invariant_except_break
                i <= last,
                forall|at: int| 0 <= at < i ==> !occurs_at(n@, h@, at),
            invariant
                last == h@.len() - n@.len(),
                h@ == encode_utf8(hay@),
                n@ == encode_utf8(needle@),
            ensures
                forall|at: int| 0 <= at <= last ==> !occurs_at(n@, h@, at),
            decreases last - i,
        {
            if bytes_occur_at(h, n, i) {
                proof {
                    lemma_bytes_occur(needle@, hay@, i as int);
                }
                return true;
            }
            if i == last {
                break;
            }
            i += 1;
        }
    }
    proof {
        if is_substring(needle@, hay@) {
            let at = choose|at: int| occurs_at(needle@, hay@, at);
            lemma_chars_occur(needle@, hay@, at);
        }
    }
    false
}

/// `s` with `to` in the place of every ASCII character `from`.
pub(crate) fn replace_char(s: &str, from: u8, to: &str) -> (r: String)
    requires
        from < 128,
    ensures
        r@ == with_char_replaced(s@, from as char, to@),
{
    let mut out = String::new();
    let mut rest = s;
    assert(out@ + with_char_replaced(rest@, from as char, to@) =~= with_char_replaced(
        s@,
        from as char,
        to@,
    ));
    loop
        invariant_except_break
            out@ + with_char_replaced(rest@, from as char, to@) == with_char_replaced(
                s@,
                from as char,
                to@,
            ),
        invariant
            from < 128,
        ensures
            out@ == with_char_replaced(s@, from as char, to@),
        decreases rest@.len(),
    {
        let ghost done = out@;
        match split_once_ascii(rest, from) {
            None => {
                proof {
                    lemma_replaced(rest@, Seq::empty(), from as char, to@);
                }
                out.append(rest);
                break;
            },
            Some((before, after)) => {
                proof {
                    lemma_replaced(before@, after@, from as char, to@);
                }
                out.append(before);
                out.append(to);
                assert(out@ + with_char_replaced(after@, from as char, to@) =~= done
                    + with_char_replaced(rest@, from as char, to@));
                rest = after;
            },
        }
    }
    out
}

} // verus!
