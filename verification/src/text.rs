//! Plain text helpers shared by the pattern compiler and the line parsers.

use vstd::prelude::*;
use vstd::string::StringSliceAdditionalSpecFns;

verus! {

/// `str`'s `==` from the standard library: true exactly when both slices hold
/// the same characters.
pub assume_specification[ <str as PartialEq<str>>::eq ](a: &str, b: &str) -> (res: bool)
    ensures
        res == (a@ == b@),
;

/// `String::push` from the standard library: appends one character.
pub assume_specification[ String::push ](s: &mut String, c: char)
    ensures
        final(s)@ == old(s)@.push(c),
;

/// The views of a sequence of strings.
pub open spec fn views(v: Seq<String>) -> Seq<Seq<char>> {
    Seq::new(v.len(), |i: int| v[i]@)
}

/// Position of the first `c` in `s`, or `s.len()` when `s` holds none.
pub open spec fn first_index_of(s: Seq<char>, c: char) -> int
    decreases s.len(),
{
    if s.len() == 0 {
        0
    } else if s[0] == c {
        0
    } else {
        1 + first_index_of(s.drop_first(), c)
    }
}

/// The pieces of `s` between occurrences of `sep`. There is always at least
/// one piece, and a piece may be empty.
pub open spec fn split_on(s: Seq<char>, sep: char) -> Seq<Seq<char>>
    decreases s.len(),
{
    let i = first_index_of(s, sep);
    if 0 <= i < s.len() {
        seq![s.take(i)] + split_on(s.skip(i + 1), sep)
    } else {
        seq![s]
    }
}

/// The first index lies within `s` or at its end; it holds `c` where it lies
/// within, and no position before it does.
pub proof fn lemma_first_index_bounds(s: Seq<char>, c: char)
    ensures
        0 <= first_index_of(s, c) <= s.len(),
        first_index_of(s, c) < s.len() ==> s[first_index_of(s, c)] == c,
        forall|j: int| 0 <= j < first_index_of(s, c) ==> s[j] != c,
    decreases s.len(),
{
    if s.len() != 0 && s[0] != c {
        lemma_first_index_bounds(s.drop_first(), c);
        assert forall|j: int| 0 <= j < first_index_of(s, c) implies s[j] != c by {
            if j > 0 {
                assert(s[j] == s.drop_first()[j - 1]);
            }
        }
    }
}

/// A position that holds `c` with none before it is the first index of `c`.
pub proof fn lemma_first_index_is(s: Seq<char>, c: char, i: int)
    requires
        0 <= i <= s.len(),
        forall|j: int| 0 <= j < i ==> s[j] != c,
        i < s.len() ==> s[i] == c,
    ensures
        first_index_of(s, c) == i,
{
    lemma_first_index_bounds(s, c);
}

/// The characters of `s`, in order.
pub fn chars_of(s: &str) -> (v: Vec<char>)
    ensures
        v@ == s@,
{
    let mut v: Vec<char> = Vec::new();
    for c in it: s.chars()
        invariant
            v@ == it.seq().take(it.index()),
            it.seq() == s@,
    {
        v.push(c);
    }
    v
}

/// Splits `s` at every `sep`.
pub fn split_chars(s: &str, sep: char) -> (pieces: Vec<String>)
    ensures
        views(pieces@) == split_on(s@, sep),
        pieces@.len() >= 1,
{
    let chars = chars_of(s);
    let mut pieces: Vec<String> = Vec::new();
    let mut cur = String::new();
    let mut i: usize = 0;
    proof {
        assert(cur@ + s@.skip(0) =~= s@);
        assert(views(pieces@) + split_on(s@, sep) =~= split_on(s@, sep));
    }
    while i < chars.len()
        invariant
            0 <= i <= chars.len(),
            chars@ == s@,
            !cur@.contains(sep),
            split_on(s@, sep) == views(pieces@) + split_on(cur@ + s@.skip(i as int), sep),
        decreases chars.len() - i,
    {
        let c = chars[i];
        let ghost rest = cur@ + s@.skip(i as int);
        proof {
            assert(rest[cur@.len() as int] == c);
        }
        if c == sep {
            proof {
                assert forall|j: int| 0 <= j < cur@.len() implies rest[j] != sep by {
                    assert(rest[j] == cur@[j]);
                    assert(cur@.contains(cur@[j]));
                }
                lemma_first_index_is(rest, sep, cur@.len() as int);
                assert(rest.take(cur@.len() as int) =~= cur@);
                assert(rest.skip(cur@.len() + 1 as int) =~= s@.skip(i + 1));
                assert(Seq::<char>::empty() + s@.skip(i + 1) =~= s@.skip(i + 1));
                assert(views(pieces@.push(cur)) =~= views(pieces@) + seq![cur@]);
            }
            pieces.push(cur);
            cur = String::new();
        } else {
            proof {
                assert(cur@.push(c) + s@.skip(i + 1) =~= rest);
                assert forall|x: char| cur@.push(c).contains(x) implies x != sep by {
                    let k = choose|k: int| 0 <= k < cur@.push(c).len() && cur@.push(c)[k] == x;
                    if k < cur@.len() {
                        assert(cur@.contains(cur@[k]));
                    }
                }
            }
            cur.push(c);
        }
        i += 1;
    }
    proof {
        assert(cur@ + s@.skip(i as int) =~= cur@);
        assert forall|j: int| 0 <= j < cur@.len() implies cur@[j] != sep by {
            assert(cur@.contains(cur@[j]));
        }
        lemma_first_index_is(cur@, sep, cur@.len() as int);
        assert(views(pieces@.push(cur)) =~= views(pieces@) + seq![cur@]);
    }
    pieces.push(cur);
    pieces
}

/// Whether `c` is white space: one of the characters that Unicode gives the
/// property White_Space. These are the controls U+0009 to U+000D, the
/// space, U+0085, U+00A0, U+1680, U+2000 to U+200A, U+2028, U+2029, U+202F,
/// U+205F and U+3000.
pub open spec fn white_space(c: char) -> bool {
    let n = c as u32;
    ||| 0x09 <= n <= 0x0D
    ||| n == 0x20
    ||| n == 0x85
    ||| n == 0xA0
    ||| n == 0x1680
    ||| 0x2000 <= n <= 0x200A
    ||| n == 0x2028
    ||| n == 0x2029
    ||| n == 0x202F
    ||| n == 0x205F
    ||| n == 0x3000
}

/// `char::is_whitespace` from the standard library, which is documented to
/// tell whether a character has the Unicode property White_Space.
pub assume_specification[ char::is_whitespace ](c: char) -> (b: bool)
    ensures
        b == white_space(c),
;

/// Whether `pattern` stands in `s` at position `i`.
pub open spec fn occurs_at(s: Seq<char>, pattern: Seq<char>, i: int) -> bool {
    0 <= i && i + pattern.len() <= s.len() && s.subrange(i, i + pattern.len()) == pattern
}

/// Whether `pattern` stands somewhere in `s`.
pub open spec fn contains_text(s: Seq<char>, pattern: Seq<char>) -> bool {
    exists|i: int| occurs_at(s, pattern, i)
}

/// Whether `s` begins with `pattern`.
pub open spec fn has_prefix(s: Seq<char>, pattern: Seq<char>) -> bool {
    occurs_at(s, pattern, 0)
}

/// Whether `i` is the first position at which `pattern` stands in `s`.
pub open spec fn first_occurrence(s: Seq<char>, pattern: Seq<char>, i: int) -> bool {
    occurs_at(s, pattern, i) && forall|j: int| 0 <= j < i ==> !occurs_at(s, pattern, j)
}

/// `s` without its leading repetitions of `pattern`.
pub open spec fn trim_start(s: Seq<char>, pattern: Seq<char>) -> Seq<char>
    decreases s.len(),
{
    if pattern.len() > 0 && has_prefix(s, pattern) {
        trim_start(s.skip(pattern.len() as int), pattern)
    } else {
        s
    }
}

/// `s` with every occurrence of `from` replaced by `to`, found from the
/// left without overlap.
pub open spec fn replaced(s: Seq<char>, from: Seq<char>, to: Seq<char>) -> Seq<char>
    decreases s.len(),
{
    if s.len() == 0 || from.len() == 0 {
        s
    } else if has_prefix(s, from) {
        to + replaced(s.skip(from.len() as int), from, to)
    } else {
        seq![s[0]] + replaced(s.skip(1), from, to)
    }
}

/// Where the last token of `s` starts: behind the last white space, and at
/// the end of `s` where `s` ends in white space.
pub open spec fn token_start(s: Seq<char>) -> int
    decreases s.len(),
{
    if s.len() == 0 || white_space(s.last()) {
        s.len() as int
    } else {
        token_start(s.drop_last())
    }
}

/// The tokens of `s`: its longest runs of characters that are no white
/// space, in order.
pub open spec fn tokens(s: Seq<char>) -> Seq<Seq<char>>
    decreases s.len(),
{
    if s.len() == 0 {
        Seq::empty()
    } else if white_space(s.last()) {
        tokens(s.drop_last())
    } else {
        let start = token_start(s);
        if 0 <= start < s.len() {
            tokens(s.take(start)).push(s.skip(start))
        } else {
            Seq::empty()
        }
    }
}

/// Whether `a` comes before `b` or equals it, bytes compared one by one and
/// a proper prefix coming first.
pub open spec fn lex_le(a: Seq<u8>, b: Seq<u8>) -> bool
    decreases a.len(),
{
    if a.len() == 0 {
        true
    } else if b.len() == 0 {
        false
    } else if a[0] != b[0] {
        a[0] < b[0]
    } else {
        lex_le(a.skip(1), b.skip(1))
    }
}

/// Of two byte strings one comes before the other or equals it.
pub proof fn lemma_lex_le_total(a: Seq<u8>, b: Seq<u8>)
    ensures
        lex_le(a, b) || lex_le(b, a),
    decreases a.len(),
{
    if a.len() > 0 && b.len() > 0 && a[0] == b[0] {
        lemma_lex_le_total(a.skip(1), b.skip(1));
    }
}

/// The order of byte strings is transitive.
pub proof fn lemma_lex_le_transitive(a: Seq<u8>, b: Seq<u8>, c: Seq<u8>)
    requires
        lex_le(a, b),
        lex_le(b, c),
    ensures
        lex_le(a, c),
    decreases a.len(),
{
    if a.len() > 0 && b.len() > 0 && c.len() > 0 && a[0] == b[0] && b[0] == c[0] {
        lemma_lex_le_transitive(a.skip(1), b.skip(1), c.skip(1));
    }
}

/// Whether the text `a` comes before the text `b` or equals it, in the
/// order of their UTF-8 bytes.
pub open spec fn text_le(a: Seq<char>, b: Seq<char>) -> bool {
    lex_le(vstd::utf8::encode_utf8(a), vstd::utf8::encode_utf8(b))
}

/// Whether the text `a` comes strictly before the text `b`.
pub open spec fn text_lt(a: Seq<char>, b: Seq<char>) -> bool {
    !text_le(b, a)
}

/// Whether `a` comes before `b` or equals it in the order of strings.
pub fn str_le(a: &str, b: &str) -> (le: bool)
    ensures
        le == text_le(a@, b@),
{
    let x = a.as_bytes();
    let y = b.as_bytes();
    let mut i: usize = 0;
    proof {
        assert(x@.skip(0) =~= x@);
        assert(y@.skip(0) =~= y@);
    }
    while i < x.len()
        invariant
            0 <= i <= x@.len(),
            i <= y@.len(),
            x@ == a.spec_bytes(),
            y@ == b.spec_bytes(),
            lex_le(x@, y@) == lex_le(x@.skip(i as int), y@.skip(i as int)),
        decreases x.len() - i,
    {
        if i >= y.len() {
            return false;
        }
        let ghost xs = x@.skip(i as int);
        let ghost ys = y@.skip(i as int);
        proof {
            assert(xs[0] == x@[i as int]);
            assert(ys[0] == y@[i as int]);
            assert(xs.skip(1) =~= x@.skip(i + 1));
            assert(ys.skip(1) =~= y@.skip(i + 1));
        }
        if x[i] != y[i] {
            return x[i] < y[i];
        }
        i += 1;
    }
    true
}

/// Whether `a` comes strictly before `b` in the order of strings.
pub fn str_lt(a: &str, b: &str) -> (lt: bool)
    ensures
        lt == text_lt(a@, b@),
{
    !str_le(b, a)
}

/// Whether `pattern` stands in `s` at position `i`.
pub fn matches_at(s: &Vec<char>, pattern: &Vec<char>, i: usize) -> (found: bool)
    ensures
        found == occurs_at(s@, pattern@, i as int),
{
    if pattern.len() > s.len() || i > s.len() - pattern.len() {
        return false;
    }
    let mut k: usize = 0;
    while k < pattern.len()
        invariant
            0 <= k <= pattern@.len(),
            i + pattern@.len() <= s@.len(),
            s@.len() <= usize::MAX,
            forall|j: int| 0 <= j < k ==> s@[i + j] == pattern@[j],
        decreases pattern.len() - k,
    {
        if s[i + k] != pattern[k] {
            proof {
                assert(s@.subrange(i as int, i + pattern@.len())[k as int] == s@[i + k]);
            }
            return false;
        }
        k += 1;
    }
    assert(s@.subrange(i as int, i + pattern@.len()) =~= pattern@);
    true
}

/// The first position at or behind `from` at which `pattern` stands in `s`.
pub fn find_from(s: &Vec<char>, pattern: &Vec<char>, from: usize) -> (found: Option<usize>)
    ensures
        match found {
            Some(i) => from <= i && occurs_at(s@, pattern@, i as int) && forall|j: int|
                from <= j < i ==> !occurs_at(s@, pattern@, j),
            None => forall|j: int| from <= j ==> !occurs_at(s@, pattern@, j),
        },
{
    let mut i: usize = from;
    while i < s.len()
        invariant
            from <= i,
            forall|j: int| from <= j < i ==> !occurs_at(s@, pattern@, j),
        decreases s.len() - i,
    {
        if matches_at(s, pattern, i) {
            return Some(i);
        }
        i += 1;
    }
    if matches_at(s, pattern, i) {
        return Some(i);
    }
    None
}

/// Whether `pattern` stands somewhere in `s`.
pub fn contains(s: &Vec<char>, pattern: &Vec<char>) -> (found: bool)
    ensures
        found == contains_text(s@, pattern@),
{
    find_from(s, pattern, 0).is_some()
}

/// The characters of `s` from position `from` up to position `to`, as a
/// string.
pub fn text_between(s: &Vec<char>, from: usize, to: usize) -> (text: String)
    requires
        from <= to <= s@.len(),
    ensures
        text@ == s@.subrange(from as int, to as int),
{
    let mut text = String::new();
    let mut i: usize = from;
    while i < to
        invariant
            from <= i <= to,
            to <= s@.len(),
            text@ == s@.subrange(from as int, i as int),
        decreases to - i,
    {
        text.push(s[i]);
        assert(text@ =~= s@.subrange(from as int, i + 1));
        i += 1;
    }
    assert(text@ =~= s@.subrange(from as int, to as int));
    text
}

/// The tokens of `s`: what lies between its stretches of white space.
pub fn split_whitespace(s: &str) -> (found: Vec<String>)
    ensures
        views(found@) == tokens(s@),
{
    let chars = chars_of(s);
    let mut found: Vec<String> = Vec::new();
    let mut start: usize = 0;
    let mut i: usize = 0;
    proof {
        assert(s@.take(0) =~= Seq::<char>::empty());
        assert(views(found@) =~= tokens(s@.take(0)));
    }
    while i < chars.len()
        invariant
            0 <= start <= i <= chars@.len(),
            chars@ == s@,
            token_start(s@.take(i as int)) == start,
            views(found@) == tokens(s@.take(start as int)),
        decreases chars.len() - i,
    {
        let c = chars[i];
        let ghost before = s@.take(i as int);
        let ghost now = s@.take(i + 1);
        proof {
            assert(now.drop_last() =~= before);
            assert(now.last() == c);
        }
        if c.is_whitespace() {
            if start < i {
                let token = text_between(&chars, start, i);
                proof {
                    assert(!white_space(before.last())) by {
                        if white_space(before.last()) {
                            assert(token_start(before) == before.len());
                        }
                    }
                    assert(before.take(start as int) =~= s@.take(start as int));
                    assert(before.skip(start as int) =~= s@.subrange(start as int, i as int));
                    assert(tokens(before) == tokens(s@.take(start as int)).push(token@));
                    assert(views(found@.push(token)) =~= views(found@).push(token@));
                }
                found.push(token);
            } else {
                proof {
                    assert(before =~= s@.take(start as int));
                }
            }
            start = i + 1;
            proof {
                assert(tokens(now) == tokens(before));
            }
        }
        i += 1;
    }
    proof {
        assert(s@.take(i as int) =~= s@);
    }
    if start < chars.len() {
        let token = text_between(&chars, start, chars.len());
        proof {
            assert(!white_space(s@.last())) by {
                if white_space(s@.last()) {
                    assert(token_start(s@) == s@.len());
                }
            }
            assert(s@.skip(start as int) =~= s@.subrange(start as int, s@.len() as int));
            assert(views(found@.push(token)) =~= views(found@).push(token@));
        }
        found.push(token);
    } else {
        proof {
            assert(s@.take(start as int) =~= s@);
        }
    }
    found
}

/// `s` with every occurrence of `from` replaced by `to`.
pub fn replace_all(s: &Vec<char>, from: &Vec<char>, to: &Vec<char>) -> (out: Vec<char>)
    ensures
        out@ == replaced(s@, from@, to@),
{
    if from.len() == 0 {
        let out = s.clone();
        assert(out@ =~= s@);
        return out;
    }
    let mut out: Vec<char> = Vec::new();
    let mut i: usize = 0;
    proof {
        assert(s@.skip(0) =~= s@);
        assert(out@ + replaced(s@, from@, to@) =~= replaced(s@, from@, to@));
    }
    while i < s.len()
        invariant
            0 <= i <= s@.len(),
            from@.len() > 0,
            replaced(s@, from@, to@) == out@ + replaced(s@.skip(i as int), from@, to@),
        decreases s.len() - i,
    {
        let ghost rest = s@.skip(i as int);
        let ghost so_far = out@;
        if matches_at(s, from, i) {
            proof {
                assert(rest.subrange(0, from@.len() as int) =~= s@.subrange(
                    i as int,
                    i + from@.len(),
                ));
                assert(has_prefix(rest, from@));
                assert(rest.skip(from@.len() as int) =~= s@.skip(i + from@.len()));
            }
            let mut k: usize = 0;
            while k < to.len()
                invariant
                    0 <= k <= to@.len(),
                    out@ == so_far + to@.take(k as int),
                decreases to.len() - k,
            {
                out.push(to[k]);
                assert(out@ =~= so_far + to@.take(k + 1));
                k += 1;
            }
            proof {
                assert(to@.take(to@.len() as int) =~= to@);
                assert(so_far + (to@ + replaced(s@.skip(i + from@.len()), from@, to@)) =~= out@
                    + replaced(s@.skip(i + from@.len()), from@, to@));
            }
            i += from.len();
        } else {
            proof {
                if has_prefix(rest, from@) {
                    assert(rest.subrange(0, from@.len() as int) =~= s@.subrange(
                        i as int,
                        i + from@.len(),
                    ));
                }
                assert(!has_prefix(rest, from@));
                assert(rest.skip(1) =~= s@.skip(i + 1));
                assert(so_far + (seq![rest[0]] + replaced(s@.skip(i + 1), from@, to@))
                    =~= so_far.push(s@[i as int]) + replaced(s@.skip(i + 1), from@, to@));
            }
            out.push(s[i]);
            i += 1;
        }
    }
    proof {
        assert(s@.skip(i as int) =~= Seq::<char>::empty());
        assert(out@ + Seq::<char>::empty() =~= out@);
    }
    out
}

/// The number of characters that the leading repetitions of `pattern` take
/// up in `s`.
pub fn trim_start_len(s: &Vec<char>, pattern: &Vec<char>) -> (n: usize)
    ensures
        n <= s@.len(),
        s@.skip(n as int) == trim_start(s@, pattern@),
{
    let mut i: usize = 0;
    proof {
        assert(s@.skip(0) =~= s@);
    }
    if pattern.len() == 0 {
        return 0;
    }
    while matches_at(s, pattern, i)
        invariant
            0 <= i <= s@.len(),
            pattern@.len() > 0,
            trim_start(s@, pattern@) == trim_start(s@.skip(i as int), pattern@),
        decreases s@.len() - i,
    {
        proof {
            let rest = s@.skip(i as int);
            assert(rest.subrange(0, pattern@.len() as int) =~= s@.subrange(
                i as int,
                i + pattern@.len(),
            ));
            assert(rest.skip(pattern@.len() as int) =~= s@.skip(i + pattern@.len()));
            assert(i + pattern@.len() <= s.len());
        }
        i += pattern.len();
    }
    proof {
        let rest = s@.skip(i as int);
        if has_prefix(rest, pattern@) {
            assert(rest.subrange(0, pattern@.len() as int) =~= s@.subrange(
                i as int,
                i + pattern@.len(),
            ));
        }
    }
    i
}

/// Whether one of `texts` reads `text`.
pub fn holds(texts: &Vec<String>, text: &str) -> (found: bool)
    ensures
        found == views(texts@).contains(text@),
{
    let mut i: usize = 0;
    while i < texts.len()
        invariant
            0 <= i <= texts@.len(),
            forall|j: int| 0 <= j < i ==> texts@[j]@ != text@,
        decreases texts.len() - i,
    {
        if *texts[i].as_str() == *text {
            assert(views(texts@)[i as int] == text@);
            return true;
        }
        i += 1;
    }
    assert forall|j: int| 0 <= j < views(texts@).len() implies views(texts@)[j] != text@ by {
        assert(views(texts@)[j] == texts@[j]@);
    }
    false
}

} // verus!
