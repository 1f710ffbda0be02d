//! Verified operations on text: equality, splitting, joining, trimming, searching,
//! and decimal numbers. A string is modelled by its sequence of characters.

use vstd::prelude::*;
use vstd::utf8::{decode_utf8, valid_utf8};

verus! {

/// `String::push` appends one character at the end.
pub assume_specification[ String::push ](s: &mut String, c: char)
    ensures
        final(s)@ == old(s)@.push(c),
;

/// `std::str::from_utf8`: the text that the bytes encode, where they are UTF-8.
#[verifier::external_body]
pub(crate) fn text_of_bytes(bytes: &[u8]) -> (r: Option<String>)
    ensures
        match r {
            Some(text) => valid_utf8(bytes@) && text@ == decode_utf8(bytes@),
            None => !valid_utf8(bytes@),
        },
{
    std::str::from_utf8(bytes).ok().map(|s| s.to_owned())
}

/// What `String::from_utf8_lossy` makes of bytes that are not UTF-8.
pub uninterp spec fn repaired_text(bytes: Seq<u8>) -> Seq<char>;

/// The text of bytes: what they encode, or, where they are not UTF-8, what
/// `String::from_utf8_lossy` makes of them.
pub open spec fn lossy_text(bytes: Seq<u8>) -> Seq<char> {
    if valid_utf8(bytes) {
        decode_utf8(bytes)
    } else {
        repaired_text(bytes)
    }
}

/// `String::from_utf8_lossy`: the text that the bytes encode, where they are UTF-8; otherwise a
/// text in which replacement characters stand for the bytes that encode none.
#[verifier::external_body]
pub(crate) fn text_of_bytes_lossy(bytes: &[u8]) -> (r: String)
    ensures
        r@ == if valid_utf8(bytes@) {
            decode_utf8(bytes@)
        } else {
            repaired_text(bytes@)
        },
{
    String::from_utf8_lossy(bytes).into_owned()
}

/// The pieces of `s` between the occurrences of `sep`; one piece where there is none.
pub open spec fn split_on(s: Seq<char>, sep: char) -> Seq<Seq<char>>
    decreases s.len(),
{
    if s.len() == 0 {
        seq![Seq::<char>::empty()]
    } else {
        let before = split_on(s.drop_last(), sep);
        if s.last() == sep {
            before.push(Seq::<char>::empty())
        } else {
            before.drop_last().push(before.last().push(s.last()))
        }
    }
}

/// The pieces put together, with `sep` between neighbours.
pub open spec fn join_with(parts: Seq<Seq<char>>, sep: Seq<char>) -> Seq<char>
    decreases parts.len(),
{
    if parts.len() == 0 {
        Seq::<char>::empty()
    } else if parts.len() == 1 {
        parts[0]
    } else {
        join_with(parts.drop_last(), sep) + sep + parts.last()
    }
}

/// The views of a list of strings.
pub open spec fn views(v: Seq<String>) -> Seq<Seq<char>> {
    v.map_values(|s: String| s@)
}

/// `part` occurs in `s` at position `i`.
pub open spec fn occurs_at(s: Seq<char>, part: Seq<char>, i: int) -> bool {
    0 <= i && i + part.len() <= s.len() && s.subrange(i, i + part.len()) == part
}

/// `part` occurs somewhere in `s`.
pub open spec fn has_substring(s: Seq<char>, part: Seq<char>) -> bool {
    exists|i: int| occurs_at(s, part, i)
}

/// `s` without the run of `c` at its end.
pub open spec fn trim_end(s: Seq<char>, c: char) -> Seq<char>
    decreases s.len(),
{
    if s.len() > 0 && s.last() == c {
        trim_end(s.drop_last(), c)
    } else {
        s
    }
}

/// `s` without the copies of `suffix` at its end.
pub open spec fn strip_suffixes(s: Seq<char>, suffix: Seq<char>) -> Seq<char>
    decreases s.len(),
{
    if suffix.len() > 0 && suffix.is_suffix_of(s) {
        strip_suffixes(s.take(s.len() - suffix.len()), suffix)
    } else {
        s
    }
}

/// The characters with the Unicode property `White_Space`.
pub open spec fn is_space(c: char) -> bool {
    let u = c as u32;
    ||| 0x9 <= u <= 0xd
    ||| u == 0x20
    ||| u == 0x85
    ||| u == 0xa0
    ||| u == 0x1680
    ||| 0x2000 <= u <= 0x200a
    ||| u == 0x2028
    ||| u == 0x2029
    ||| u == 0x202f
    ||| u == 0x205f
    ||| u == 0x3000
}

/// The number of white-space characters at the start of `s`.
pub open spec fn leading_spaces(s: Seq<char>) -> nat
    decreases s.len(),
{
    if s.len() > 0 && is_space(s[0]) {
        1 + leading_spaces(s.drop_first())
    } else {
        0
    }
}

/// `s` without the white space at its end.
pub open spec fn trim_end_space(s: Seq<char>) -> Seq<char>
    decreases s.len(),
{
    if s.len() > 0 && is_space(s.last()) {
        trim_end_space(s.drop_last())
    } else {
        s
    }
}

/// `s` without the white space at both ends.
pub open spec fn trimmed(s: Seq<char>) -> Seq<char> {
    trim_end_space(s.skip(leading_spaces(s) as int))
}

/// The decimal digit of a number below ten.
pub open spec fn digit_char(d: nat) -> char {
    (('0' as u32) + d) as char
}

/// The decimal form of `n`, without leading zeros.
pub open spec fn decimal(n: nat) -> Seq<char>
    decreases n,
{
    if n < 10 {
        seq![digit_char(n)]
    } else {
        decimal(n / 10).push(digit_char(n % 10))
    }
}

/// `c` is one of the ten ASCII digits.
pub open spec fn is_digit(c: char) -> bool {
    '0' <= c && c <= '9'
}

/// Every character of `s` is an ASCII digit.
pub open spec fn all_digits(s: Seq<char>) -> bool {
    forall|i: int| 0 <= i < s.len() ==> is_digit(#[trigger] s[i])
}

/// The number that a run of digits stands for.
pub open spec fn digits_value(s: Seq<char>) -> nat
    decreases s.len(),
{
    if s.len() == 0 {
        0
    } else {
        digits_value(s.drop_last()) * 10 + ((s.last() as u32) - ('0' as u32)) as nat
    }
}

/// The digits of an unsigned number: what follows an optional plus sign.
pub open spec fn unsigned_digits(s: Seq<char>) -> Seq<char> {
    if s.len() > 0 && s[0] == '+' {
        s.skip(1)
    } else {
        s
    }
}

/// The unsigned number written by `s`, if it is one and is at most `max`.
pub open spec fn parse_unsigned(s: Seq<char>, max: nat) -> Option<nat> {
    let d = unsigned_digits(s);
    if d.len() > 0 && all_digits(d) && digits_value(d) <= max {
        Some(digits_value(d))
    } else {
        None
    }
}

/// The characters of `s` as a vector.
pub fn chars_of(s: &str) -> (r: Vec<char>)
    ensures
        r@ == s@,
{
    let mut v: Vec<char> = Vec::new();
    for c in it: s.chars()
        invariant
            v@ == it.seq().take(it.index() as int),
            it.seq() == s@,
    {
        proof {
            assert(it.seq().take(it.index() as int + 1) =~= it.seq().take(it.index() as int).push(
                it.seq()[it.index() as int],
            ));
        }
        v.push(c);
    }
    proof {
        assert(s@.take(s@.len() as int) =~= s@);
    }
    v
}

/// The string made of the characters of `v` from `from` up to `to`.
pub fn string_of(v: &Vec<char>, from: usize, to: usize) -> (r: String)
    requires
        from <= to <= v@.len(),
    ensures
        r@ == v@.subrange(from as int, to as int),
{
    let mut s = String::new();
    let mut i: usize = from;
    while i < to
        invariant
            from <= i <= to <= v@.len(),
            s@ == v@.subrange(from as int, i as int),
        decreases to - i,
    {
        proof {
            assert(v@.subrange(from as int, i as int + 1) =~= v@.subrange(
                from as int,
                i as int,
            ).push(v@[i as int]));
        }
        s.push(v[i]);
        i = i + 1;
    }
    s
}

/// Whether two strings hold the same characters.
pub fn str_eq(a: &str, b: &str) -> (r: bool)
    ensures
        r == (a@ == b@),
{
    a.to_owned() == b.to_owned()
}

/// A string with one more piece at its end.
pub fn concat2(a: &str, b: &str) -> (r: String)
    ensures
        r@ == a@ + b@,
{
    let mut s = a.to_owned();
    s.append(b);
    s
}

/// Three pieces put together.
pub fn concat3(a: &str, b: &str, c: &str) -> (r: String)
    ensures
        r@ == a@ + b@ + c@,
{
    let mut s = a.to_owned();
    s.append(b);
    s.append(c);
    s
}

/// There is always a first piece.
pub proof fn lemma_split_nonempty(s: Seq<char>, sep: char)
    ensures
        split_on(s, sep).len() > 0,
    decreases s.len(),
{
    if s.len() > 0 {
        lemma_split_nonempty(s.drop_last(), sep);
    }
}

/// The pieces of a text, joined again, are the text.
pub proof fn law_join_after_split(s: Seq<char>, sep: char)
    ensures
        join_with(split_on(s, sep), seq![sep]) == s,
    decreases s.len(),
{
    if s.len() > 0 {
        let before = split_on(s.drop_last(), sep);
        law_join_after_split(s.drop_last(), sep);
        lemma_split_nonempty(s.drop_last(), sep);
        let parts = split_on(s, sep);
        let c = seq![sep];
        if s.last() == sep {
            assert(parts.drop_last() =~= before);
            assert(s.drop_last() + c + Seq::<char>::empty() =~= s);
        } else {
            assert(parts.drop_last() =~= before.drop_last());
            if before.len() == 1 {
                assert(parts[0] =~= before[0].push(s.last()));
                assert(s.drop_last().push(s.last()) =~= s);
            } else {
                let head = join_with(before.drop_last(), c);
                assert(head + c + before.last().push(s.last()) =~= (head + c + before.last()).push(
                    s.last(),
                ));
                assert(s.drop_last().push(s.last()) =~= s);
            }
        }
    }
}

/// A text without the separator, put behind a text that ends in one, is a piece of its own.
proof fn lemma_split_append(a: Seq<char>, sep: char, piece: Seq<char>)
    requires
        !piece.contains(sep),
    ensures
        split_on(a.push(sep) + piece, sep) == split_on(a, sep).push(piece),
    decreases piece.len(),
{
    let s = a.push(sep) + piece;
    if piece.len() == 0 {
        assert(s =~= a.push(sep));
        assert(a.push(sep).drop_last() =~= a);
        assert(piece =~= Seq::<char>::empty());
    } else {
        assert forall|i: int| 0 <= i < piece.drop_last().len() implies piece.drop_last()[i] != sep by {
            assert(piece[i] != sep);
        }
        lemma_split_append(a, sep, piece.drop_last());
        assert(s.drop_last() =~= a.push(sep) + piece.drop_last());
        assert(s.last() == piece.last());
        assert(piece[piece.len() - 1] != sep);
        let before = split_on(a, sep).push(piece.drop_last());
        assert(before.drop_last() =~= split_on(a, sep));
        assert(piece.drop_last().push(piece.last()) =~= piece);
    }
}

/// A text without the separator is its only piece.
pub proof fn lemma_split_single(piece: Seq<char>, sep: char)
    requires
        !piece.contains(sep),
    ensures
        split_on(piece, sep) == seq![piece],
    decreases piece.len(),
{
    if piece.len() > 0 {
        assert forall|i: int| 0 <= i < piece.drop_last().len() implies piece.drop_last()[i] != sep by {
            assert(piece[i] != sep);
        }
        lemma_split_single(piece.drop_last(), sep);
        assert(piece[piece.len() - 1] != sep);
        assert(piece.drop_last().push(piece.last()) =~= piece);
        assert(seq![piece.drop_last()].drop_last().push(piece) =~= seq![piece]);
    } else {
        assert(piece =~= Seq::<char>::empty());
    }
}

/// A text without the separator, put before a separator and a text, is the first piece, and the
/// pieces of that text follow.
pub proof fn lemma_split_prepend(piece: Seq<char>, sep: char, rest: Seq<char>)
    requires
        !piece.contains(sep),
    ensures
        split_on(piece.push(sep) + rest, sep) == seq![piece] + split_on(rest, sep),
    decreases rest.len(),
{
    let s = piece.push(sep) + rest;
    if rest.len() == 0 {
        lemma_split_single(piece, sep);
        assert(s =~= piece.push(sep));
        assert(s.drop_last() =~= piece);
        assert(seq![piece].push(Seq::<char>::empty()) =~= seq![piece] + split_on(rest, sep));
    } else {
        let before = split_on(rest.drop_last(), sep);
        lemma_split_prepend(piece, sep, rest.drop_last());
        lemma_split_nonempty(rest.drop_last(), sep);
        assert(s.drop_last() =~= piece.push(sep) + rest.drop_last());
        assert(s.last() == rest.last());
        let all = seq![piece] + before;
        if rest.last() == sep {
            assert(all.push(Seq::<char>::empty()) =~= seq![piece] + before.push(
                Seq::<char>::empty(),
            ));
        } else {
            let last = before.last().push(rest.last());
            assert(all.last() == before.last());
            assert(all.drop_last().push(last) =~= seq![piece] + before.drop_last().push(last));
        }
    }
}

/// Pieces without the separator, joined by it and split again, are the pieces.
pub proof fn law_split_after_join(parts: Seq<Seq<char>>, sep: char)
    requires
        parts.len() > 0,
        forall|i: int| 0 <= i < parts.len() ==> !(#[trigger] parts[i]).contains(sep),
    ensures
        split_on(join_with(parts, seq![sep]), sep) == parts,
    decreases parts.len(),
{
    if parts.len() == 1 {
        lemma_split_single(parts[0], sep);
        assert(parts =~= seq![parts[0]]);
    } else {
        let init = parts.drop_last();
        assert forall|i: int| 0 <= i < init.len() implies !(#[trigger] init[i]).contains(sep) by {
            assert(!parts[i].contains(sep));
        }
        law_split_after_join(init, sep);
        let a = join_with(init, seq![sep]);
        assert(!parts[parts.len() - 1].contains(sep));
        lemma_split_append(a, sep, parts.last());
        assert(a + seq![sep] + parts.last() =~= a.push(sep) + parts.last());
        assert(init.push(parts.last()) =~= parts);
    }
}

/// The pieces of `s` between the occurrences of `sep`.
pub fn split_string(s: &str, sep: char) -> (r: Vec<String>)
    ensures
        views(r@) == split_on(s@, sep),
        r@.len() > 0,
{
    let v = chars_of(s);
    let mut parts: Vec<String> = Vec::new();
    let mut piece = String::new();
    let mut i: usize = 0;
    proof {
        assert(v@.take(0) =~= Seq::empty());
        assert(views(parts@).push(piece@) =~= seq![Seq::<char>::empty()]);
    }
    while i < v.len()
        invariant
            i <= v@.len(),
            v@ == s@,
            views(parts@).push(piece@) == split_on(v@.take(i as int), sep),
        decreases v@.len() - i,
    {
        let ghost before = views(parts@).push(piece@);
        let ghost old_parts = views(parts@);
        proof {
            assert(v@.take(i + 1).drop_last() =~= v@.take(i as int));
            assert(v@.take(i + 1).last() == v@[i as int]);
            assert(before.drop_last() =~= old_parts);
        }
        if v[i] == sep {
            let ghost done = piece@;
            parts.push(piece);
            piece = String::new();
            proof {
                assert(views(parts@) =~= old_parts.push(done));
            }
        } else {
            piece.push(v[i]);
        }
        i = i + 1;
    }
    let ghost last = piece@;
    let ghost old_parts = views(parts@);
    parts.push(piece);
    proof {
        assert(v@.take(v@.len() as int) =~= v@);
        assert(views(parts@) =~= old_parts.push(last));
    }
    parts
}

/// The first `n` pieces put together, with `sep` between neighbours.
pub fn join_first(parts: &Vec<String>, n: usize, sep: &str) -> (r: String)
    requires
        n <= parts@.len(),
    ensures
        r@ == join_with(views(parts@).take(n as int), sep@),
{
    let ghost all = views(parts@);
    if n == 0 {
        let r = String::new();
        proof {
            assert(all.take(0) =~= Seq::empty());
            assert(r@ =~= join_with(all.take(0), sep@));
        }
        return r;
    }
    let mut s = parts[0].clone();
    let mut i: usize = 1;
    proof {
        assert(all.take(1)[0] == s@);
    }
    while i < n
        invariant
            1 <= i <= n <= parts@.len(),
            all == views(parts@),
            s@ == join_with(all.take(i as int), sep@),
        decreases n - i,
    {
        proof {
            assert(all.take(i + 1).drop_last() =~= all.take(i as int));
            assert(all.take(i + 1).last() == parts@[i as int]@);
        }
        s.append(sep);
        s.append(parts[i].as_str());
        i = i + 1;
    }
    s
}

/// The pieces from `from` up to `to` put together, with `sep` between neighbours.
pub fn join_range(parts: &Vec<String>, from: usize, to: usize, sep: &str) -> (r: String)
    requires
        from <= to <= parts@.len(),
    ensures
        r@ == join_with(views(parts@).subrange(from as int, to as int), sep@),
{
    let mut kept: Vec<String> = Vec::new();
    let mut i: usize = from;
    while i < to
        invariant
            from <= i <= to <= parts@.len(),
            views(kept@) == views(parts@).subrange(from as int, i as int),
        decreases to - i,
    {
        let ghost before = views(kept@);
        kept.push(parts[i].clone());
        proof {
            assert(views(kept@) =~= before.push(parts@[i as int]@));
            assert(views(parts@).subrange(from as int, i + 1) =~= before.push(parts@[i as int]@));
        }
        i = i + 1;
    }
    proof {
        assert(views(kept@).take(kept@.len() as int) =~= views(kept@));
    }
    join_first(&kept, kept.len(), sep)
}

/// The pieces from `from` on put together, with `sep` between neighbours.
pub fn join_from(parts: &Vec<String>, from: usize, sep: &str) -> (r: String)
    requires
        from <= parts@.len(),
    ensures
        r@ == join_with(views(parts@).skip(from as int), sep@),
{
    proof {
        assert(views(parts@).skip(from as int) =~= views(parts@).subrange(
            from as int,
            parts@.len() as int,
        ));
    }
    join_range(parts, from, parts.len(), sep)
}

/// Whether `s` begins with `prefix`.
pub fn starts_with(s: &str, prefix: &str) -> (r: bool)
    ensures
        r == prefix@.is_prefix_of(s@),
{
    let v = chars_of(s);
    let p = chars_of(prefix);
    if p.len() > v.len() {
        return false;
    }
    let mut i: usize = 0;
    while i < p.len()
        invariant
            i <= p@.len() <= v@.len(),
            v@ == s@,
            p@ == prefix@,
            forall|j: int| 0 <= j < i ==> p@[j] == v@[j],
        decreases p@.len() - i,
    {
        if p[i] != v[i] {
            proof {
                assert(v@.subrange(0, p@.len() as int)[i as int] == v@[i as int]);
            }
            return false;
        }
        i = i + 1;
    }
    proof {
        assert(v@.subrange(0, p@.len() as int) =~= p@);
    }
    true
}

/// Whether `s` ends with `suffix`.
pub fn ends_with(s: &str, suffix: &str) -> (r: bool)
    ensures
        r == suffix@.is_suffix_of(s@),
{
    let v = chars_of(s);
    let p = chars_of(suffix);
    if p.len() > v.len() {
        return false;
    }
    let at: usize = v.len() - p.len();
    let mut i: usize = 0;
    while i < p.len()
        invariant
            i <= p@.len() <= v@.len() <= usize::MAX,
            at == v@.len() - p@.len(),
            v@ == s@,
            p@ == suffix@,
            forall|j: int| 0 <= j < i ==> p@[j] == v@[at + j],
        decreases p@.len() - i,
    {
        if p[i] != v[at + i] {
            proof {
                assert(v@.subrange(v@.len() - p@.len(), v@.len() as int)[i as int] == v@[at + i]);
            }
            return false;
        }
        i = i + 1;
    }
    proof {
        assert(v@.subrange(v@.len() - p@.len(), v@.len() as int) =~= p@);
    }
    true
}

/// Whether `part` occurs in `s`.
pub fn contains_text(s: &str, part: &str) -> (r: bool)
    ensures
        r == has_substring(s@, part@),
{
    let v = chars_of(s);
    let p = chars_of(part);
    if p.len() > v.len() {
        return false;
    }
    if p.len() == 0 {
        proof {
            assert(v@.subrange(0, 0) =~= p@);
            assert(occurs_at(v@, p@, 0));
        }
        return true;
    }
    let last: usize = v.len() - p.len();
    let mut at: usize = 0;
    while at <= last
        invariant
            at <= last + 1,
            0 < p@.len() <= v@.len() <= usize::MAX,
            last == v@.len() - p@.len(),
            v@ == s@,
            p@ == part@,
            forall|k: int| 0 <= k < at ==> !occurs_at(v@, p@, k),
        decreases last + 1 - at,
    {
        let mut i: usize = 0;
        let mut same = true;
        while i < p.len() && same
            invariant
                i <= p@.len(),
                p@.len() <= v@.len() <= usize::MAX,
                at <= last,
                last == v@.len() - p@.len(),
                same ==> forall|j: int| 0 <= j < i ==> p@[j] == v@[at + j],
                !same ==> !occurs_at(v@, p@, at as int),
            decreases p@.len() - i,
        {
            if p[i] != v[at + i] {
                same = false;
                proof {
                    assert(v@.subrange(at as int, at + p@.len())[i as int] == v@[at + i]);
                }
            }
            i = i + 1;
        }
        if same {
            proof {
                assert(v@.subrange(at as int, at + p@.len()) =~= p@);
                assert(occurs_at(v@, p@, at as int));
            }
            return true;
        }
        at = at + 1;
    }
    proof {
        assert forall|k: int| !occurs_at(v@, p@, k) by {}
    }
    false
}

/// `s` without the run of `c` at its end.
pub fn trim_end_char(s: &str, c: char) -> (r: String)
    ensures
        r@ == trim_end(s@, c),
{
    let v = chars_of(s);
    let mut n: usize = v.len();
    proof {
        assert(v@.take(n as int) =~= v@);
    }
    while n > 0 && v[n - 1] == c
        invariant
            n <= v@.len(),
            v@ == s@,
            trim_end(v@, c) == trim_end(v@.take(n as int), c),
        decreases n,
    {
        proof {
            assert(v@.take(n as int).drop_last() =~= v@.take(n - 1));
        }
        n = n - 1;
    }
    proof {
        assert(v@.subrange(0, n as int) =~= v@.take(n as int));
    }
    string_of(&v, 0, n)
}

/// `s` without the copies of `suffix` at its end.
pub fn trim_end_matches(s: &str, suffix: &str) -> (r: String)
    ensures
        r@ == strip_suffixes(s@, suffix@),
{
    let v = chars_of(s);
    let width: usize = chars_of(suffix).len();
    let mut rest = s.to_owned();
    let mut n: usize = v.len();
    proof {
        assert(v@.take(n as int) =~= s@);
    }
    while width > 0 && ends_with(rest.as_str(), suffix)
        invariant
            v@ == s@,
            width == suffix@.len(),
            n <= v@.len(),
            rest@ == v@.take(n as int),
            strip_suffixes(s@, suffix@) == strip_suffixes(rest@, suffix@),
        decreases n,
    {
        proof {
            assert(rest@.take(rest@.len() - suffix@.len()) =~= v@.take(n - width));
            assert(v@.subrange(0, n - width) =~= v@.take(n - width));
        }
        n = n - width;
        rest = string_of(&v, 0, n);
    }
    rest
}

/// Whether a character is white space.
pub fn is_space_char(c: char) -> (r: bool)
    ensures
        r == is_space(c),
{
    let u: u32 = c as u32;
    (0x9 <= u && u <= 0xd) || u == 0x20 || u == 0x85 || u == 0xa0 || u == 0x1680 || (0x2000 <= u
        && u <= 0x200a) || u == 0x2028 || u == 0x2029 || u == 0x202f || u == 0x205f || u == 0x3000
}

/// `s` without the white space at both ends.
pub fn trim(s: &str) -> (r: String)
    ensures
        r@ == trimmed(s@),
{
    let v = chars_of(s);
    let mut from: usize = 0;
    proof {
        assert(v@.skip(0) =~= v@);
    }
    while from < v.len() && is_space_char(v[from])
        invariant
            from <= v@.len(),
            v@ == s@,
            leading_spaces(v@) == from + leading_spaces(v@.skip(from as int)),
        decreases v@.len() - from,
    {
        proof {
            assert(v@.skip(from as int).drop_first() =~= v@.skip(from + 1));
            assert(v@.skip(from as int)[0] == v@[from as int]);
        }
        from = from + 1;
    }
    proof {
        if from < v@.len() {
            assert(v@.skip(from as int)[0] == v@[from as int]);
        }
        assert(leading_spaces(v@) == from);
    }
    let ghost rest = v@.skip(from as int);
    let mut to: usize = v.len();
    proof {
        assert(v@.subrange(from as int, to as int) =~= rest);
    }
    while to > from && is_space_char(v[to - 1])
        invariant
            from <= to <= v@.len(),
            v@ == s@,
            trim_end_space(rest) == trim_end_space(v@.subrange(from as int, to as int)),
        decreases to,
    {
        proof {
            assert(v@.subrange(from as int, to as int).drop_last() =~= v@.subrange(
                from as int,
                to - 1,
            ));
        }
        to = to - 1;
    }
    string_of(&v, from, to)
}

/// The decimal form of a number.
pub fn u64_text(n: u64) -> (r: String)
    ensures
        r@ == decimal(n as nat),
    decreases n,
{
    if n < 10 {
        let c: char = ('0' as u8 + n as u8) as char;
        let mut s = String::new();
        s.push(c);
        proof {
            assert(s@ =~= seq![digit_char(n as nat)]);
        }
        s
    } else {
        let mut s = u64_text(n / 10);
        let c: char = ('0' as u8 + (n % 10) as u8) as char;
        s.push(c);
        s
    }
}

/// The decimal form of a size.
pub fn usize_text(n: usize) -> (r: String)
    ensures
        r@ == decimal(n as nat),
{
    u64_text(n as u64)
}

/// The number below or at `max` that a text writes in decimal, with an optional plus sign.
pub fn parse_u64_up_to(s: &str, max: u64) -> (r: Option<u64>)
    ensures
        match r {
            Some(n) => parse_unsigned(s@, max as nat) == Some(n as nat),
            None => parse_unsigned(s@, max as nat) is None,
        },
{
    let v = chars_of(s);
    let from: usize = if v.len() > 0 && v[0] == '+' { 1 } else { 0 };
    let ghost d = unsigned_digits(s@);
    proof {
        assert(d =~= v@.skip(from as int));
    }
    if from == v.len() {
        return None;
    }
    let mut n: u64 = 0;
    let mut i: usize = from;
    proof {
        assert(d.take(0) =~= Seq::empty());
    }
    while i < v.len()
        invariant
            from <= i <= v@.len(),
            d == v@.skip(from as int),
            d == unsigned_digits(s@),
            d.len() > 0,
            all_digits(d.take(i - from)),
            n == digits_value(d.take(i - from)),
            n <= max,
        decreases v@.len() - i,
    {
        let c: char = v[i];
        proof {
            assert(d[i - from] == c);
            assert(d.take(i - from + 1).drop_last() =~= d.take(i - from));
            assert(d.take(i - from + 1).last() == c);
        }
        if !('0' <= c && c <= '9') {
            proof {
                assert(!is_digit(d[i - from]));
            }
            return None;
        }
        let digit: u64 = (c as u32 - '0' as u32) as u64;
        if n > u64::MAX / 10 || n * 10 > u64::MAX - digit || n * 10 + digit > max {
            proof {
                if all_digits(d) {
                    lemma_digits_grow(d, i - from + 1);
                }
            }
            return None;
        }
        n = n * 10 + digit;
        proof {
            assert forall|j: int| 0 <= j < d.take(i - from + 1).len() implies is_digit(
                #[trigger] d.take(i - from + 1)[j],
            ) by {
                if j < i - from {
                    assert(is_digit(d.take(i - from)[j]));
                }
            }
        }
        i = i + 1;
    }
    proof {
        assert(d.take(d.len() as int) =~= d);
    }
    Some(n)
}

/// More digits never make a smaller number.
proof fn lemma_digits_grow(d: Seq<char>, k: int)
    requires
        0 <= k <= d.len(),
        all_digits(d),
    ensures
        digits_value(d.take(k)) <= digits_value(d),
    decreases d.len() - k,
{
    if k == d.len() {
        assert(d.take(k) =~= d);
    } else {
        lemma_digits_grow(d, k + 1);
        assert(d.take(k + 1).drop_last() =~= d.take(k));
        assert(is_digit(d[k]));
    }
}

/// The number that a text writes in decimal, with an optional plus sign.
pub fn parse_u64(s: &str) -> (r: Option<u64>)
    ensures
        match r {
            Some(n) => parse_unsigned(s@, u64::MAX as nat) == Some(n as nat),
            None => parse_unsigned(s@, u64::MAX as nat) is None,
        },
{
    parse_u64_up_to(s, u64::MAX)
}

/// The decimal form of a number has only digits, and stands for the number.
pub proof fn lemma_decimal_digits(n: nat)
    ensures
        decimal(n).len() > 0,
        all_digits(decimal(n)),
        digits_value(decimal(n)) == n,
    decreases n,
{
    if n < 10 {
        let d = decimal(n);
        assert(d.drop_last() =~= Seq::empty());
        assert(digits_value(d.drop_last()) == 0);
    } else {
        lemma_decimal_digits(n / 10);
        let d = decimal(n);
        assert(d.drop_last() =~= decimal(n / 10));
        assert forall|i: int| 0 <= i < d.len() implies is_digit(#[trigger] d[i]) by {
            if i < d.len() - 1 {
                assert(is_digit(decimal(n / 10)[i]));
            }
        }
    }
}

/// The decimal form of a number is read back as the number.
pub proof fn law_parse_after_decimal(n: nat, max: nat)
    requires
        n <= max,
    ensures
        parse_unsigned(decimal(n), max) == Some(n),
{
    lemma_decimal_digits(n);
    assert(is_digit(decimal(n)[0]));
}

/// Whether a list of texts holds a text.
pub fn list_contains(list: &Vec<String>, text: &str) -> (r: bool)
    ensures
        r == views(list@).contains(text@),
{
    let mut i: usize = 0;
    while i < list.len()
        invariant
            i <= list@.len(),
            forall|j: int| 0 <= j < i ==> (#[trigger] list@[j])@ != text@,
        decreases list@.len() - i,
    {
        if str_eq(list[i].as_str(), text) {
            proof {
                assert(views(list@)[i as int] == text@);
            }
            return true;
        }
        i = i + 1;
    }
    proof {
        assert forall|j: int| 0 <= j < views(list@).len() implies views(list@)[j] != text@ by {
            assert(list@[j]@ != text@);
        }
    }
    false
}

/// A run of one character.
pub open spec fn run_of(c: char, n: nat) -> Seq<char> {
    Seq::new(n, |i: int| c)
}

/// What is left of a text that ends in a run of a character is what stands before the run.
pub proof fn law_trim_end_drops_the_run(s: Seq<char>, c: char, n: nat)
    requires
        s.len() > 0 ==> s.last() != c,
    ensures
        trim_end(s + run_of(c, n), c) == s,
    decreases n,
{
    let t = s + run_of(c, n);
    if n == 0 {
        assert(t =~= s);
    } else {
        law_trim_end_drops_the_run(s, c, (n - 1) as nat);
        assert(t.last() == c);
        assert(t.drop_last() =~= s + run_of(c, (n - 1) as nat));
    }
}

/// A text is what is left of it without a character at its end, and a run of that character; what
/// is left does not end in it.
pub proof fn law_trim_end_splits(s: Seq<char>, c: char)
    ensures
        exists|n: nat| s == trim_end(s, c) + #[trigger] run_of(c, n),
        trim_end(s, c).len() > 0 ==> trim_end(s, c).last() != c,
    decreases s.len(),
{
    if s.len() > 0 && s.last() == c {
        law_trim_end_splits(s.drop_last(), c);
        let n = choose|n: nat| s.drop_last() == trim_end(s.drop_last(), c) + #[trigger] run_of(c, n);
        assert(run_of(c, n + 1) =~= run_of(c, n).push(c));
        assert(s =~= s.drop_last().push(c));
        assert(s =~= trim_end(s, c) + run_of(c, n + 1));
    } else {
        assert(s =~= trim_end(s, c) + run_of(c, 0));
    }
}

/// Every character of a text is white space.
pub open spec fn all_spaces(s: Seq<char>) -> bool {
    forall|i: int| 0 <= i < s.len() ==> is_space(#[trigger] s[i])
}

proof fn lemma_leading_spaces(s: Seq<char>)
    ensures
        leading_spaces(s) <= s.len(),
        all_spaces(s.take(leading_spaces(s) as int)),
        leading_spaces(s) < s.len() ==> !is_space(s[leading_spaces(s) as int]),
    decreases s.len(),
{
    if s.len() > 0 && is_space(s[0]) {
        let rest = s.drop_first();
        let n = leading_spaces(rest);
        lemma_leading_spaces(rest);
        assert forall|i: int| 0 <= i < n + 1 implies is_space(#[trigger] s.take(n as int + 1)[i]) by {
            if i > 0 {
                assert(is_space(rest.take(n as int)[i - 1]));
            }
        }
    }
}

proof fn lemma_trim_end_space(s: Seq<char>)
    ensures
        trim_end_space(s).len() <= s.len(),
        s.take(trim_end_space(s).len() as int) == trim_end_space(s),
        all_spaces(s.skip(trim_end_space(s).len() as int)),
        trim_end_space(s).len() > 0 ==> !is_space(trim_end_space(s).last()),
    decreases s.len(),
{
    if s.len() > 0 && is_space(s.last()) {
        let rest = s.drop_last();
        lemma_trim_end_space(rest);
        let n = trim_end_space(s).len() as int;
        assert(s.take(n) =~= rest.take(n));
        assert forall|i: int| 0 <= i < s.skip(n).len() implies is_space(#[trigger] s.skip(n)[i]) by {
            if n + i < rest.len() {
                assert(is_space(rest.skip(n)[i]));
            }
        }
    } else {
        assert(s.take(s.len() as int) =~= s);
    }
}

/// A text is white space, the trimmed text, and white space; the trimmed text neither begins nor
/// ends with white space.
pub proof fn law_trimmed_is_the_middle(s: Seq<char>)
    ensures
        exists|before: Seq<char>, after: Seq<char>|
            #![trigger all_spaces(before), all_spaces(after)]
            {
                &&& all_spaces(before)
                &&& all_spaces(after)
                &&& s == before + trimmed(s) + after
            },
        trimmed(s).len() > 0 ==> !is_space(trimmed(s)[0]) && !is_space(trimmed(s).last()),
        trimmed(s).len() == 0 <==> all_spaces(s),
{
    let n = leading_spaces(s) as int;
    let middle = s.skip(n);
    lemma_leading_spaces(s);
    lemma_trim_end_space(middle);
    let m = trimmed(s).len() as int;
    let before = s.take(n);
    let after = middle.skip(m);
    assert(s =~= before + trimmed(s) + after);
    assert(all_spaces(before) && all_spaces(after));
    if m > 0 {
        assert(trimmed(s)[0] == s[n]);
        assert(!all_spaces(s));
    } else {
        assert forall|i: int| 0 <= i < s.len() implies is_space(#[trigger] s[i]) by {
            if i < n {
                assert(is_space(before[i]));
            } else {
                assert(is_space(after[i - n]));
            }
        }
    }
}

/// A copy of a text, a number of times.
pub open spec fn repeated(s: Seq<char>, n: nat) -> Seq<char>
    decreases n,
{
    if n == 0 {
        Seq::empty()
    } else {
        repeated(s, (n - 1) as nat) + s
    }
}

/// A text is what is left of it without a suffix, and the suffix some number of times; what is left
/// does not end in the suffix.
pub proof fn law_strip_suffixes_splits(s: Seq<char>, suffix: Seq<char>)
    requires
        suffix.len() > 0,
    ensures
        exists|n: nat| s == strip_suffixes(s, suffix) + #[trigger] repeated(suffix, n),
        !suffix.is_suffix_of(strip_suffixes(s, suffix)),
    decreases s.len(),
{
    if suffix.is_suffix_of(s) {
        let rest = s.take(s.len() - suffix.len());
        law_strip_suffixes_splits(rest, suffix);
        let n = choose|n: nat| rest == strip_suffixes(rest, suffix) + #[trigger] repeated(suffix, n);
        assert(s =~= rest + suffix);
        let left = strip_suffixes(s, suffix);
        assert(s =~= left + repeated(suffix, n + 1));
    } else {
        assert(s =~= strip_suffixes(s, suffix) + repeated(suffix, 0));
    }
}

/// A number is read from digits, with an optional plus sign, and from nothing else; each digit more
/// is worth ten times what stands before it.
pub proof fn law_numbers_are_read_from_digits(s: Seq<char>, max: nat)
    ensures
        parse_unsigned(s, max) is Some ==> s.len() > 0 && forall|i: int|
            0 <= i < s.len() ==> ('0' <= #[trigger] s[i] && s[i] <= '9') || (i == 0 && s.len() > 1
                && s[i] == '+'),
        parse_unsigned(s, max) matches Some(n) ==> n <= max,
        s.len() > 0 && s[0] != '+' ==> parse_unsigned(seq!['+'] + s, max) == parse_unsigned(s, max),
{
    let d = unsigned_digits(s);
    if parse_unsigned(s, max) is Some {
        assert forall|i: int| 0 <= i < s.len() implies ('0' <= #[trigger] s[i] && s[i] <= '9') || (i
            == 0 && s.len() > 1 && s[i] == '+') by {
            if s[0] == '+' {
                if i > 0 {
                    assert(is_digit(d[i - 1]));
                }
            } else {
                assert(is_digit(d[i]));
            }
        }
    }
    if s.len() > 0 && s[0] != '+' {
        assert((seq!['+'] + s).skip(1) =~= s);
    }
}

/// A number with one digit more is ten times the number and the digit; a number that is too large
/// is not read.
pub proof fn law_numbers_grow_by_digits(s: Seq<char>, digit: nat, max: nat)
    requires
        digit < 10,
        parse_unsigned(s, max) is Some,
    ensures
        ({
            let n = parse_unsigned(s, max)->0 * 10 + digit;
            parse_unsigned(s.push(digit_char(digit)), max) == if n <= max {
                Some(n)
            } else {
                None
            }
        }),
        digit_char(digit) as u32 == '0' as u32 + digit,
{
    let d = unsigned_digits(s);
    let longer = s.push(digit_char(digit));
    assert(unsigned_digits(longer) =~= d.push(digit_char(digit)));
    let e = d.push(digit_char(digit));
    assert(e.drop_last() =~= d);
    assert(is_digit(digit_char(digit)));
    assert forall|i: int| 0 <= i < e.len() implies is_digit(#[trigger] e[i]) by {
        if i < d.len() {
            assert(is_digit(d[i]));
        }
    }
}

/// The pieces of a text hold no separator, and each separator makes one piece more.
pub proof fn law_pieces_hold_no_separator(s: Seq<char>, sep: char)
    ensures
        forall|i: int|
            0 <= i < split_on(s, sep).len() ==> !(#[trigger] split_on(s, sep)[i]).contains(sep),
        split_on(s.push(sep), sep).len() == split_on(s, sep).len() + 1,
        split_on(s, sep).len() == 1 <==> !s.contains(sep),
    decreases s.len(),
{
    assert(s.push(sep).drop_last() =~= s);
    lemma_split_nonempty(s, sep);
    if s.len() > 0 {
        let rest = s.drop_last();
        let before = split_on(rest, sep);
        law_pieces_hold_no_separator(rest, sep);
        lemma_split_nonempty(rest, sep);
        let parts = split_on(s, sep);
        assert forall|i: int| 0 <= i < parts.len() implies !(#[trigger] parts[i]).contains(sep) by {
            if s.last() == sep {
                if i < before.len() {
                    assert(!before[i].contains(sep));
                }
            } else {
                if i < before.len() - 1 {
                    assert(!before[i].contains(sep));
                } else {
                    assert(!before[before.len() - 1].contains(sep));
                    let last = before.last().push(s.last());
                    assert forall|k: int| 0 <= k < last.len() implies last[k] != sep by {
                        if k < before.last().len() {
                            assert(before.last().contains(before.last()[k]));
                        }
                    }
                }
            }
        }
        if s.last() == sep {
            assert(s.contains(s[s.len() - 1]));
        } else {
            assert(s.contains(sep) <==> rest.contains(sep)) by {
                if s.contains(sep) {
                    let k = choose|k: int| 0 <= k < s.len() && s[k] == sep;
                    assert(rest[k] == sep);
                }
                if rest.contains(sep) {
                    let k = choose|k: int| 0 <= k < rest.len() && rest[k] == sep;
                    assert(s[k] == sep);
                }
            }
        }
    }
}

/// A text holds another exactly when it is some text, the other, and some text.
pub proof fn law_substring_stands_between(s: Seq<char>, part: Seq<char>)
    ensures
        has_substring(s, part) <==> exists|before: Seq<char>, after: Seq<char>|
            s == #[trigger] (before + part + after),
{
    if has_substring(s, part) {
        let i = choose|i: int| occurs_at(s, part, i);
        let before = s.take(i);
        let after = s.skip(i + part.len());
        assert(s =~= before + part + after);
    }
    if exists|before: Seq<char>, after: Seq<char>| s == #[trigger] (before + part + after) {
        let (before, after) = choose|before: Seq<char>, after: Seq<char>|
            s == #[trigger] (before + part + after);
        let i = before.len() as int;
        assert(s.subrange(i, i + part.len()) =~= part);
        assert(occurs_at(s, part, i));
    }
}

} // verus!
