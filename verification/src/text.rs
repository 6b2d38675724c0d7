use vstd::prelude::*;

verus! {

/// `String::push` of the standard library: the character is put at the end of
/// the string, and the rest of the string stays as it was.
pub assume_specification[ String::push ](s: &mut String, c: char)
    ensures
        final(s)@ == old(s)@.push(c),
;

/// The characters of `s`, in order.
pub fn chars_of(s: &str) -> (r: Vec<char>)
    ensures
        r@ == s@,
{
    let mut out: Vec<char> = Vec::new();
    for c in it: s.chars()
        invariant
            it.seq() == s@,
            out@ == s@.take(it.index() as int),
    {
        out.push(c);
    }
    out
}

/// The string whose characters are `chars`, in order.
pub fn string_of(chars: &Vec<char>) -> (r: String)
    ensures
        r@ == chars@,
{
    let mut out = String::new();
    let mut i: usize = 0;
    while i < chars.len()
        invariant
            i <= chars.len(),
            out@ == chars@.take(i as int),
        decreases chars.len() - i,
    {
        out.push(chars[i]);
        i += 1;
        assert(out@ == chars@.take(i as int));
    }
    assert(chars@.take(chars.len() as int) == chars@);
    out
}

/// A character with the Unicode property `White_Space`.
pub open spec fn is_space(c: char) -> bool {
    ||| '\u{9}' <= c <= '\u{d}'
    ||| c == ' '
    ||| c == '\u{85}'
    ||| c == '\u{a0}'
    ||| c == '\u{1680}'
    ||| '\u{2000}' <= c <= '\u{200a}'
    ||| c == '\u{2028}'
    ||| c == '\u{2029}'
    ||| c == '\u{202f}'
    ||| c == '\u{205f}'
    ||| c == '\u{3000}'
}

/// Tells whether `c` is white space.
pub fn space(c: char) -> (r: bool)
    ensures
        r == is_space(c),
{
    (c >= '\u{9}' && c <= '\u{d}') || c == ' ' || c == '\u{85}' || c == '\u{a0}' || c
        == '\u{1680}' || (c >= '\u{2000}' && c <= '\u{200a}') || c == '\u{2028}' || c
        == '\u{2029}' || c == '\u{202f}' || c == '\u{205f}' || c == '\u{3000}'
}

/// The length of the run of characters that are no white space at the start of `s`.
pub open spec fn word_len(s: Seq<char>) -> nat
    decreases s.len(),
{
    if s.len() == 0 || is_space(s[0]) {
        0
    } else {
        1 + word_len(s.drop_first())
    }
}

/// The words of a line: its maximal runs of characters that are no white space,
/// from left to right.
pub open spec fn words(s: Seq<char>) -> Seq<Seq<char>>
    decreases s.len(),
    via words_decreases
{
    if s.len() == 0 {
        Seq::empty()
    } else if is_space(s[0]) {
        words(s.drop_first())
    } else {
        seq![s.take(word_len(s) as int)] + words(s.skip(word_len(s) as int))
    }
}

#[via_fn]
proof fn words_decreases(s: Seq<char>) {
    if s.len() > 0 && !is_space(s[0]) {
        lemma_word_len_bound(s);
    }
}

/// The words joined by single spaces.
pub open spec fn join(ts: Seq<Seq<char>>) -> Seq<char>
    decreases ts.len(),
{
    if ts.len() == 0 {
        Seq::empty()
    } else if ts.len() == 1 {
        ts[0]
    } else {
        join(ts.drop_last()) + seq![' '] + ts.last()
    }
}

/// A file name with every backslash turned into a forward slash.
pub open spec fn sanitized(s: Seq<char>) -> Seq<char> {
    Seq::new(
        s.len(),
        |i: int|
            if s[i] == '\\' {
                '/'
            } else {
                s[i]
            },
    )
}

/// `s` without the occurrences of `c`.
pub open spec fn without(s: Seq<char>, c: char) -> Seq<char>
    decreases s.len(),
{
    if s.len() == 0 {
        s
    } else if s.last() == c {
        without(s.drop_last(), c)
    } else {
        without(s.drop_last(), c).push(s.last())
    }
}

/// The user handle that a token in square brackets holds.
pub open spec fn handle_of(s: Seq<char>) -> Option<Seq<char>> {
    if s.len() >= 2 && s[0] == '[' && s.last() == ']' {
        Some(s.subrange(1, s.len() - 1))
    } else {
        None
    }
}

/// The text of each token.
pub open spec fn texts(tokens: Seq<Vec<char>>) -> Seq<Seq<char>> {
    Seq::new(tokens.len(), |i: int| tokens[i]@)
}

pub proof fn lemma_word_len_bound(s: Seq<char>)
    ensures
        word_len(s) <= s.len(),
        s.len() > 0 && !is_space(s[0]) ==> word_len(s) >= 1,
        forall|k: int| 0 <= k < word_len(s) ==> !is_space(#[trigger] s[k]),
        word_len(s) < s.len() ==> is_space(s[word_len(s) as int]),
    decreases s.len(),
{
    if s.len() > 0 && !is_space(s[0]) {
        let t = s.drop_first();
        lemma_word_len_bound(t);
        assert forall|k: int| 0 <= k < word_len(s) implies !is_space(#[trigger] s[k]) by {
            if k > 0 {
                assert(s[k] == t[k - 1]);
            }
        }
        if word_len(s) < s.len() {
            assert(s[word_len(s) as int] == t[word_len(t) as int]);
        }
    }
}

proof fn lemma_word_len_is(s: Seq<char>, m: int)
    requires
        0 <= m <= s.len(),
        forall|k: int| 0 <= k < m ==> !is_space(#[trigger] s[k]),
        m < s.len() ==> is_space(s[m]),
    ensures
        word_len(s) == m,
    decreases m,
{
    if m > 0 {
        let t = s.drop_first();
        assert forall|k: int| 0 <= k < m - 1 implies !is_space(#[trigger] t[k]) by {
            assert(t[k] == s[k + 1]);
        }
        lemma_word_len_is(t, m - 1);
    }
}

proof fn lemma_words_skip_space(s: Seq<char>, i: int)
    requires
        0 <= i < s.len(),
        is_space(s[i]),
    ensures
        words(s.skip(i)) == words(s.skip(i + 1)),
{
    assert(s.skip(i).drop_first() == s.skip(i + 1));
}

proof fn lemma_words_take_word(s: Seq<char>, i: int, j: int)
    requires
        0 <= i < j <= s.len(),
        forall|k: int| i <= k < j ==> !is_space(#[trigger] s[k]),
        j < s.len() ==> is_space(s[j]),
    ensures
        words(s.skip(i)) == seq![s.subrange(i, j)] + words(s.skip(j)),
{
    let t = s.skip(i);
    lemma_word_len_is(t, j - i);
    assert(t.take(j - i) == s.subrange(i, j));
    assert(t.skip(j - i) == s.skip(j));
}

/// Splits a line into its words.
pub fn split_words(line: &Vec<char>) -> (r: Vec<Vec<char>>)
    ensures
        texts(r@) == words(line@),
{
    let n: usize = line.len();
    let mut out: Vec<Vec<char>> = Vec::new();
    let mut i: usize = 0;
    assert(line@.skip(0) == line@);
    while i < n
        invariant
            i <= n,
            n == line.len(),
            words(line@) == texts(out@) + words(line@.skip(i as int)),
        decreases n - i,
    {
        if space(line[i]) {
            proof {
                lemma_words_skip_space(line@, i as int);
            }
            i += 1;
        } else {
            let mut word: Vec<char> = Vec::new();
            let mut j: usize = i;
            while j < n && !space(line[j])
                invariant
                    i <= j <= n,
                    n == line.len(),
                    word@ == line@.subrange(i as int, j as int),
                    forall|k: int| i <= k < j ==> !is_space(#[trigger] line@[k]),
                decreases n - j,
            {
                word.push(line[j]);
                j += 1;
                assert(word@ == line@.subrange(i as int, j as int));
            }
            proof {
                lemma_words_take_word(line@, i as int, j as int);
                assert(texts(out@.push(word)) == texts(out@) + seq![word@]);
            }
            out.push(word);
            i = j;
        }
    }
    assert(words(line@.skip(n as int)) == Seq::<Seq<char>>::empty());
    assert(texts(out@) + Seq::<Seq<char>>::empty() == texts(out@));
    out
}

/// Joins the tokens from `from` up to `to` by single spaces.
pub fn join_tokens(tokens: &Vec<Vec<char>>, from: usize, to: usize) -> (r: String)
    requires
        from <= to <= tokens.len(),
    ensures
        r@ == join(texts(tokens@).subrange(from as int, to as int)),
{
    let ghost part = texts(tokens@).subrange(from as int, to as int);
    let mut out = String::new();
    let mut i: usize = from;
    while i < to
        invariant
            from <= i <= to <= tokens.len(),
            part == texts(tokens@).subrange(from as int, to as int),
            out@ == join(part.take(i - from)),
        decreases to - i,
    {
        let ghost before = out@;
        if i > from {
            out.push(' ');
        }
        let token = &tokens[i];
        let mut k: usize = 0;
        while k < token.len()
            invariant
                k <= token.len(),
                out@ == if i > from {
                    before + seq![' '] + token@.take(k as int)
                } else {
                    before + token@.take(k as int)
                },
            decreases token.len() - k,
        {
            out.push(token[k]);
            k += 1;
            assert(token@.take(k as int) == token@.take(k - 1).push(token@[k - 1]));
        }
        proof {
            assert(token@.take(k as int) == token@);
            let next = part.take(i - from + 1);
            assert(next.drop_last() == part.take(i - from));
            assert(next.last() == token@);
            if i == from {
                assert(before == Seq::<char>::empty());
                assert(before + token@ == token@);
            }
        }
        i += 1;
    }
    assert(part.take(to - from) == part);
    out
}

/// Copies a file name, turning every backslash into a forward slash.
pub fn sanitize_file_name(token: &Vec<char>) -> (r: String)
    ensures
        r@ == sanitized(token@),
{
    let mut out = String::new();
    let mut i: usize = 0;
    while i < token.len()
        invariant
            i <= token.len(),
            out@ == sanitized(token@).take(i as int),
        decreases token.len() - i,
    {
        let c = token[i];
        if c == '\\' {
            out.push('/');
        } else {
            out.push(c);
        }
        i += 1;
        assert(out@ == sanitized(token@).take(i as int));
    }
    assert(sanitized(token@).take(token.len() as int) == sanitized(token@));
    out
}

/// Copies a token, leaving out every occurrence of `c`.
pub fn strip(token: &Vec<char>, c: char) -> (r: String)
    ensures
        r@ == without(token@, c),
{
    let mut out = String::new();
    let mut i: usize = 0;
    while i < token.len()
        invariant
            i <= token.len(),
            out@ == without(token@.take(i as int), c),
        decreases token.len() - i,
    {
        assert(token@.take(i + 1).drop_last() == token@.take(i as int));
        if token[i] != c {
            out.push(token[i]);
        }
        i += 1;
    }
    assert(token@.take(token.len() as int) == token@);
    out
}

/// Reads a token in square brackets as a user handle.
pub fn tokenize_user_name(token: &Vec<char>) -> (r: Option<String>)
    ensures
        r is Some == handle_of(token@) is Some,
        r is Some ==> r->0@ == handle_of(token@)->0,
{
    let n: usize = token.len();
    if n >= 2 && token[0] == '[' && token[n - 1] == ']' {
        let mut out = String::new();
        let mut i: usize = 1;
        while i < n - 1
            invariant
                1 <= i <= n - 1,
                n == token.len(),
                out@ == token@.subrange(1, i as int),
            decreases n - i,
        {
            out.push(token[i]);
            i += 1;
            assert(out@ == token@.subrange(1, i as int));
        }
        Some(out)
    } else {
        None
    }
}

/// Tells whether `token` spells `word`.
pub fn token_is(token: &Vec<char>, word: &str) -> (r: bool)
    ensures
        r == (token@ == word@),
{
    let n: usize = word.unicode_len();
    if token.len() != n {
        return false;
    }
    let mut i: usize = 0;
    for c in it: word.chars()
        invariant
            it.seq() == word@,
            n == word@.len(),
            n == token.len(),
            i == it.index(),
            token@.take(i as int) == word@.take(i as int),
    {
        if token[i] != c {
            assert(token@[i as int] != word@[i as int]);
            return false;
        }
        assert(token@.take(i + 1) == token@.take(i as int).push(token@[i as int]));
        assert(word@.take(i + 1) == word@.take(i as int).push(word@[i as int]));
        i += 1;
    }
    assert(token@.take(n as int) == token@);
    assert(word@.take(n as int) == word@);
    true
}

} // verus!
