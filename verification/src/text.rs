//! Text primitives shared by the block classifier and the inline transformer:
//! substring search, character runs, trimming, and line splitting.

use vstd::prelude::*;

verus! {

/// Pattern `p` occurs in `s` starting at position `i`.
pub open spec fn occurs_at(s: Seq<char>, p: Seq<char>, i: int) -> bool {
    0 <= i && i + p.len() <= s.len() && s.subrange(i, i + p.len() as int) == p
}

/// The least position at or after `from` where `p` occurs in `s`, if any.
pub open spec fn find_from(s: Seq<char>, p: Seq<char>, from: int) -> Option<int>
    decreases s.len() - from,
    when 0 <= from && p.len() >= 1
{
    if from + p.len() > s.len() {
        None
    } else if s.subrange(from, from + p.len() as int) == p {
        Some(from)
    } else {
        find_from(s, p, from + 1)
    }
}

/// `find_from` returns the least occurrence position at or after `from`,
/// and `None` exactly when there is no occurrence at or after `from`.
pub proof fn lemma_find_from(s: Seq<char>, p: Seq<char>, from: int)
    requires
        0 <= from,
        p.len() >= 1,
    ensures
        match find_from(s, p, from) {
            Some(i) => from <= i && occurs_at(s, p, i) && (forall|k: int|
                from <= k < i ==> !occurs_at(s, p, k)),
            None => forall|k: int| from <= k ==> !occurs_at(s, p, k),
        },
    decreases s.len() - from,
{
    if from + p.len() > s.len() {
        assert forall|k: int| from <= k implies !occurs_at(s, p, k) by {}
    } else if s.subrange(from, from + p.len() as int) == p {
    } else {
        lemma_find_from(s, p, from + 1);
        assert(!occurs_at(s, p, from));
    }
}

/// Converse direction: an occurrence with no earlier occurrence is what
/// `find_from` returns.
pub proof fn lemma_find_from_is(s: Seq<char>, p: Seq<char>, from: int, i: int)
    requires
        0 <= from <= i,
        p.len() >= 1,
        occurs_at(s, p, i),
        forall|k: int| from <= k < i ==> !occurs_at(s, p, k),
    ensures
        find_from(s, p, from) == Some(i),
{
    lemma_find_from(s, p, from);
    match find_from(s, p, from) {
        Some(j) => {
            if j < i {
                assert(occurs_at(s, p, j));
            } else if j > i {
                assert(!occurs_at(s, p, i));
            }
        },
        None => {
            assert(!occurs_at(s, p, i));
        },
    }
}

/// `p` occurs somewhere in `s`.
pub open spec fn spec_contains(s: Seq<char>, p: Seq<char>) -> bool {
    find_from(s, p, 0) is Some
}

/// Whitespace characters recognized by the classifier's patterns.
pub open spec fn is_space_char(c: char) -> bool {
    c == ' ' || c == '\t' || c == '\r' || c == '\x0b' || c == '\x0c'
}

/// Decimal digit.
pub open spec fn is_digit_char(c: char) -> bool {
    48 <= c as int && c as int <= 57
}

/// The end of the run of whitespace characters starting at `i`.
pub open spec fn space_end(s: Seq<char>, i: int) -> int
    decreases s.len() - i,
    when 0 <= i <= s.len()
{
    if i < s.len() && is_space_char(s[i]) {
        space_end(s, i + 1)
    } else {
        i
    }
}

/// Bounds and contents of a whitespace run.
pub proof fn lemma_space_end(s: Seq<char>, i: int)
    requires
        0 <= i <= s.len(),
    ensures
        i <= space_end(s, i) <= s.len(),
        forall|k: int| i <= k < space_end(s, i) ==> is_space_char(s[k]),
        space_end(s, i) < s.len() ==> !is_space_char(s[space_end(s, i)]),
    decreases s.len() - i,
{
    if i < s.len() && is_space_char(s[i]) {
        lemma_space_end(s, i + 1);
    }
}

/// The end of the run of `#` characters starting at `i`.
pub open spec fn hash_end(s: Seq<char>, i: int) -> int
    decreases s.len() - i,
    when 0 <= i <= s.len()
{
    if i < s.len() && s[i] == '#' {
        hash_end(s, i + 1)
    } else {
        i
    }
}

/// Bounds and contents of a `#` run.
pub proof fn lemma_hash_end(s: Seq<char>, i: int)
    requires
        0 <= i <= s.len(),
    ensures
        i <= hash_end(s, i) <= s.len(),
        forall|k: int| i <= k < hash_end(s, i) ==> s[k] == '#',
        hash_end(s, i) < s.len() ==> s[hash_end(s, i)] != '#',
    decreases s.len() - i,
{
    if i < s.len() && s[i] == '#' {
        lemma_hash_end(s, i + 1);
    }
}

/// The end of the run of decimal digits starting at `i`.
pub open spec fn digit_end(s: Seq<char>, i: int) -> int
    decreases s.len() - i,
    when 0 <= i <= s.len()
{
    if i < s.len() && is_digit_char(s[i]) {
        digit_end(s, i + 1)
    } else {
        i
    }
}

/// Bounds and contents of a digit run.
pub proof fn lemma_digit_end(s: Seq<char>, i: int)
    requires
        0 <= i <= s.len(),
    ensures
        i <= digit_end(s, i) <= s.len(),
        forall|k: int| i <= k < digit_end(s, i) ==> is_digit_char(s[k]),
        digit_end(s, i) < s.len() ==> !is_digit_char(s[digit_end(s, i)]),
    decreases s.len() - i,
{
    if i < s.len() && is_digit_char(s[i]) {
        lemma_digit_end(s, i + 1);
    }
}

/// The start of the run of whitespace characters ending just before `i`.
pub open spec fn space_start_back(s: Seq<char>, i: int) -> int
    decreases i,
    when 0 <= i <= s.len()
{
    if i > 0 && is_space_char(s[i - 1]) {
        space_start_back(s, i - 1)
    } else {
        i
    }
}

/// Bounds and contents of a trailing whitespace run.
pub proof fn lemma_space_start_back(s: Seq<char>, i: int)
    requires
        0 <= i <= s.len(),
    ensures
        0 <= space_start_back(s, i) <= i,
        forall|k: int| space_start_back(s, i) <= k < i ==> is_space_char(s[k]),
        space_start_back(s, i) > 0 ==> !is_space_char(s[space_start_back(s, i) - 1]),
    decreases i,
{
    if i > 0 && is_space_char(s[i - 1]) {
        lemma_space_start_back(s, i - 1);
    }
}

/// `s` with leading and trailing whitespace removed.
pub open spec fn spec_trim(s: Seq<char>) -> Seq<char> {
    let a = space_end(s, 0);
    if a == s.len() {
        Seq::empty()
    } else {
        s.subrange(a, space_start_back(s, s.len() as int))
    }
}

/// A line with one trailing carriage return removed.
pub open spec fn strip_cr(l: Seq<char>) -> Seq<char> {
    if l.len() > 0 && l[l.len() - 1] == '\r' {
        l.subrange(0, l.len() - 1)
    } else {
        l
    }
}

/// The lines of `doc` starting at `pos`: pieces split on newline characters,
/// a carriage return before the newline removed, the empty piece after a
/// final newline dropped; a last piece without a newline keeps its text.
pub open spec fn lines_from(doc: Seq<char>, pos: int) -> Seq<Seq<char>>
    decreases doc.len() - pos,
    when 0 <= pos
    via lines_from_decreases
{
    if pos >= doc.len() {
        Seq::empty()
    } else {
        match find_from(doc, seq!['\n'], pos) {
            None => seq![doc.subrange(pos, doc.len() as int)],
            Some(i) => seq![strip_cr(doc.subrange(pos, i))] + lines_from(doc, i + 1),
        }
    }
}

#[via_fn]
proof fn lines_from_decreases(doc: Seq<char>, pos: int) {
    lemma_find_from(doc, seq!['\n'], pos);
}

/// The lines of a whole document.
pub open spec fn spec_lines(doc: Seq<char>) -> Seq<Seq<char>> {
    lines_from(doc, 0)
}

/// Whether `p` occurs in `s` starting exactly at `i`.
fn match_at(s: &str, p: &str, i: usize) -> (b: bool)
    requires
        i + p@.len() <= s@.len(),
    ensures
        b == occurs_at(s@, p@, i as int),
{
    let slen: usize = s.unicode_len();
    let plen: usize = p.unicode_len();
    let mut j: usize = 0;
    while j < plen
        invariant
            0 <= j <= plen,
            plen == p@.len(),
            slen == s@.len(),
            i + plen <= slen,
            forall|k: int| 0 <= k < j ==> s@[i + k] == p@[k],
        decreases plen - j,
    {
        if s.get_char(i + j) != p.get_char(j) {
            proof {
                assert(s@.subrange(i as int, i + plen) != p@) by {
                    assert(s@.subrange(i as int, i + plen)[j as int] == s@[i + j]);
                }
            }
            return false;
        }
        j += 1;
    }
    proof {
        assert(s@.subrange(i as int, i + plen) =~= p@);
    }
    true
}

/// The least occurrence of `p` in `s` at or after `from`, as `find_from`.
pub fn find_sub(s: &str, p: &str, from: usize) -> (r: Option<usize>)
    requires
        p@.len() >= 1,
    ensures
        match r {
            Some(i) => find_from(s@, p@, from as int) == Some(i as int),
            None => find_from(s@, p@, from as int) is None,
        },
{
    let slen: usize = s.unicode_len();
    let plen: usize = p.unicode_len();
    if plen > slen {
        proof {
            lemma_find_from(s@, p@, from as int);
            if find_from(s@, p@, from as int) is Some {
                assert(occurs_at(s@, p@, find_from(s@, p@, from as int)->0));
            }
        }
        return None;
    }
    let mut i: usize = from;
    while i <= slen - plen
        invariant
            from <= i,
            plen == p@.len(),
            slen == s@.len(),
            1 <= plen <= slen,
            forall|k: int| from <= k < i ==> !occurs_at(s@, p@, k),
        decreases slen - i,
    {
        if match_at(s, p, i) {
            proof {
                lemma_find_from_is(s@, p@, from as int, i as int);
            }
            return Some(i);
        }
        i += 1;
    }
    proof {
        assert forall|k: int| k >= i implies !occurs_at(s@, p@, k) by {}
        lemma_find_from(s@, p@, from as int);
        if find_from(s@, p@, from as int) is Some {
            let j = find_from(s@, p@, from as int)->0;
            assert(occurs_at(s@, p@, j));
        }
    }
    None
}

/// Whether `p` occurs anywhere in `s`.
pub fn contains_sub(s: &str, p: &str) -> (b: bool)
    requires
        p@.len() >= 1,
    ensures
        b == spec_contains(s@, p@),
{
    match find_sub(s, p, 0) {
        Some(_) => true,
        None => false,
    }
}

/// The document split into lines, as `spec_lines`.
pub fn split_lines(s: &str) -> (r: Vec<String>)
    ensures
        r.deep_view() == spec_lines(s@),
{
    let slen: usize = s.unicode_len();
    let mut out: Vec<String> = Vec::new();
    let mut pos: usize = 0;
    while pos < slen
        invariant
            0 <= pos <= slen,
            slen == s@.len(),
            spec_lines(s@) =~= out.deep_view() + lines_from(s@, pos as int),
        decreases slen - pos,
    {
        let ghost prev = out.deep_view();
        proof {
            reveal_strlit("\n");
            assert("\n"@ =~= seq!['\n']);
        }
        let piece_end: usize;
        let next_pos: usize;
        match find_sub(s, "\n", pos) {
            Some(i) => {
                proof {
                    lemma_find_from(s@, seq!['\n'], pos as int);
                }
                piece_end = i;
                next_pos = i + 1;
            },
            None => {
                piece_end = slen;
                next_pos = slen;
            },
        }
        let piece = if next_pos > piece_end {
            line_piece(s, pos, piece_end)
        } else {
            String::from_str(s.substring_char(pos, piece_end))
        };
        out.push(piece);
        proof {
            if next_pos > piece_end {
                assert(out.deep_view() =~= prev + seq![strip_cr(s@.subrange(pos as int, piece_end as int))]);
            } else {
                assert(out.deep_view() =~= prev + seq![s@.subrange(pos as int, piece_end as int)]);
            }
            if next_pos < slen {
                assert(spec_lines(s@) =~= out.deep_view() + lines_from(s@, next_pos as int));
            } else {
                assert(lines_from(s@, next_pos as int) =~= Seq::<Seq<char>>::empty());
                assert(spec_lines(s@) =~= out.deep_view() + lines_from(s@, next_pos as int));
            }
        }
        pos = next_pos;
    }
    proof {
        assert(spec_lines(s@) =~= out.deep_view());
    }
    out
}

/// Whether `c` is one of the whitespace characters the patterns recognize.
pub fn space_char(c: char) -> (b: bool)
    ensures
        b == is_space_char(c),
{
    c == ' ' || c == '\t' || c == '\r' || c == '\x0b' || c == '\x0c'
}

/// Whether `c` is a decimal digit.
pub fn digit_char(c: char) -> (b: bool)
    ensures
        b == is_digit_char(c),
{
    let u = c as u32;
    48 <= u && u <= 57
}

/// The end of the whitespace run starting at `from`, as `space_end`.
pub fn scan_spaces(s: &str, from: usize) -> (n: usize)
    requires
        from as int <= s@.len(),
    ensures
        n as int == space_end(s@, from as int),
        from <= n <= s@.len(),
        forall|k: int| from <= k < n ==> is_space_char(s@[k]),
        n < s@.len() ==> !is_space_char(s@[n as int]),
{
    let slen: usize = s.unicode_len();
    let mut i: usize = from;
    while i < slen && space_char(s.get_char(i))
        invariant
            from <= i <= slen,
            slen == s@.len(),
            space_end(s@, from as int) == space_end(s@, i as int),
        decreases slen - i,
    {
        i += 1;
    }
    proof {
        lemma_space_end(s@, from as int);
    }
    i
}

/// The end of the `#` run starting at `from`, as `hash_end`.
pub fn scan_hashes(s: &str, from: usize) -> (n: usize)
    requires
        from as int <= s@.len(),
    ensures
        n as int == hash_end(s@, from as int),
        from <= n <= s@.len(),
{
    let slen: usize = s.unicode_len();
    let mut i: usize = from;
    while i < slen && s.get_char(i) == '#'
        invariant
            from <= i <= slen,
            slen == s@.len(),
            hash_end(s@, from as int) == hash_end(s@, i as int),
        decreases slen - i,
    {
        i += 1;
    }
    i
}

/// The end of the digit run starting at `from`, as `digit_end`.
pub fn scan_digits(s: &str, from: usize) -> (n: usize)
    requires
        from as int <= s@.len(),
    ensures
        n as int == digit_end(s@, from as int),
        from <= n <= s@.len(),
{
    let slen: usize = s.unicode_len();
    let mut i: usize = from;
    while i < slen && digit_char(s.get_char(i))
        invariant
            from <= i <= slen,
            slen == s@.len(),
            digit_end(s@, from as int) == digit_end(s@, i as int),
        decreases slen - i,
    {
        i += 1;
    }
    i
}

/// `s` with leading and trailing whitespace removed, as `spec_trim`.
pub fn trim_chars<'a>(s: &'a str) -> (r: &'a str)
    ensures
        r@ == spec_trim(s@),
{
    let slen: usize = s.unicode_len();
    let a = scan_spaces(s, 0);
    if a == slen {
        let empty = s.substring_char(slen, slen);
        proof {
            assert(empty@ =~= spec_trim(s@));
        }
        return empty;
    }
    let mut b: usize = slen;
    while b > 0 && space_char(s.get_char(b - 1))
        invariant
            0 <= b <= slen,
            slen == s@.len(),
            space_start_back(s@, slen as int) == space_start_back(s@, b as int),
        decreases b,
    {
        b -= 1;
    }
    proof {
        lemma_space_start_back(s@, slen as int);
        if b <= a {
            assert(is_space_char(s@[a as int]));
        }
    }
    s.substring_char(a, b)
}

/// One line of the document: the piece `s[from..to]` with a trailing
/// carriage return removed.
fn line_piece(s: &str, from: usize, to: usize) -> (r: String)
    requires
        from <= to <= s@.len(),
    ensures
        r@ == strip_cr(s@.subrange(from as int, to as int)),
{
    let piece = s.substring_char(from, to);
    let plen: usize = piece.unicode_len();
    if plen > 0 && piece.get_char(plen - 1) == '\r' {
        let trimmed = piece.substring_char(0, plen - 1);
        proof {
            assert(trimmed@ =~= strip_cr(s@.subrange(from as int, to as int)));
        }
        String::from_str(trimmed)
    } else {
        String::from_str(piece)
    }
}

} // verus!
