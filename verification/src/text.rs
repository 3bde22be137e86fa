//! Character-level helpers over `str` and `String`, stated over their `Seq<char>` views.
use vstd::prelude::*;

verus! {

/// Whether `prefix` is a prefix of `s`.
pub open spec fn has_prefix(s: Seq<char>, prefix: Seq<char>) -> bool {
    prefix.len() <= s.len() && s.take(prefix.len() as int) == prefix
}

/// The characters of `s`, in order.
pub fn char_vec(s: &str) -> (v: Vec<char>)
    ensures
        v@ == s@,
{
    let n = s.unicode_len();
    let mut v: Vec<char> = Vec::new();
    let mut i: usize = 0;
    while i < n
        invariant
            n == s@.len(),
            i <= n,
            v@ == s@.take(i as int),
        decreases n - i,
    {
        let c = s.get_char(i);
        v.push(c);
        i = i + 1;
        assert(v@ == s@.take(i as int));
    }
    assert(s@.take(n as int) == s@);
    v
}

/// Whether the characters in `v` spell out exactly `lit`.
pub fn chars_equal(v: &Vec<char>, lit: &str) -> (r: bool)
    ensures
        r == (v@ == lit@),
{
    let w = char_vec(lit);
    if v.len() != w.len() {
        return false;
    }
    let mut i: usize = 0;
    while i < v.len()
        invariant
            v@.len() == w@.len(),
            w@ == lit@,
            i <= v@.len(),
            forall|j: int| 0 <= j < i ==> v@[j] == w@[j],
        decreases v@.len() - i,
    {
        if v[i] != w[i] {
            return false;
        }
        i = i + 1;
    }
    assert(v@ == w@);
    true
}

/// Whether the characters in `v` begin with `lit`.
pub fn chars_start_with(v: &Vec<char>, lit: &str) -> (r: bool)
    ensures
        r == has_prefix(v@, lit@),
{
    let w = char_vec(lit);
    if v.len() < w.len() {
        return false;
    }
    let mut i: usize = 0;
    while i < w.len()
        invariant
            w@.len() <= v@.len(),
            w@ == lit@,
            i <= w@.len(),
            forall|j: int| 0 <= j < i ==> v@[j] == w@[j],
        decreases w@.len() - i,
    {
        if v[i] != w[i] {
            assert(v@.take(w@.len() as int)[i as int] != w@[i as int]);
            return false;
        }
        i = i + 1;
    }
    assert(v@.take(w@.len() as int) == w@);
    true
}

/// Whether `c` has the Unicode `White_Space` property: tab, line feed, line
/// tabulation, form feed, carriage return, space, next line, no-break space,
/// ogham space mark, the spaces U+2000 to U+200A, line and paragraph
/// separators, narrow no-break space, medium mathematical space and
/// ideographic space.
pub open spec fn char_is_whitespace(c: char) -> bool {
    let n = c as u32;
    ||| 0x9 <= n <= 0xD
    ||| n == 0x20
    ||| n == 0x85
    ||| n == 0xA0
    ||| n == 0x1680
    ||| 0x2000 <= n <= 0x200A
    ||| n == 0x2028
    ||| n == 0x2029
    ||| n == 0x202F
    ||| n == 0x205F
    ||| n == 0x3000
}

/// What `str::to_lowercase` returns for a string with the characters `s`.
pub uninterp spec fn str_to_lowercase(s: Seq<char>) -> Seq<char>;

/// Calls `char::is_whitespace`, which is documented to answer whether `c` has
/// the Unicode `White_Space` property; the contract states that set.
#[verifier::external_body]
pub(crate) fn is_whitespace(c: char) -> (r: bool)
    ensures
        r == char_is_whitespace(c),
{
    c.is_whitespace()
}

/// Calls `str::to_lowercase`; the contract claims only that the result is a
/// function of the characters of `s`, named `str_to_lowercase`.
#[verifier::external_body]
pub(crate) fn to_lowercase(s: &str) -> (r: String)
    ensures
        r@ == str_to_lowercase(s@),
{
    s.to_lowercase()
}

/// The maximal runs of non-whitespace characters of `s`, in order.
pub open spec fn words(s: Seq<char>) -> Seq<Seq<char>>
    decreases s.len(),
{
    if s.len() == 0 {
        seq![]
    } else {
        let init = s.drop_last();
        let c = s.last();
        let ws = words(init);
        if char_is_whitespace(c) {
            ws
        } else if init.len() > 0 && !char_is_whitespace(init.last()) {
            ws.drop_last().push(ws.last().push(c))
        } else {
            ws.push(seq![c])
        }
    }
}

/// The words joined by single spaces.
pub open spec fn join_words(ws: Seq<Seq<char>>) -> Seq<char>
    decreases ws.len(),
{
    if ws.len() == 0 {
        seq![]
    } else if ws.len() == 1 {
        ws[0]
    } else {
        join_words(ws.drop_last()) + seq![' '] + ws.last()
    }
}

/// A string that ends in a non-whitespace character has at least one word.
proof fn lemma_words_nonempty(s: Seq<char>)
    requires
        s.len() > 0,
        !char_is_whitespace(s.last()),
    ensures
        words(s).len() > 0,
    decreases s.len(),
{
    let init = s.drop_last();
    if init.len() > 0 && !char_is_whitespace(init.last()) {
        lemma_words_nonempty(init);
    }
}

/// `s` with its whitespace runs collapsed: its words joined by single spaces,
/// with no whitespace before the first or after the last.
pub fn collapse_whitespace(s: &str) -> (r: String)
    ensures
        r@ == join_words(words(s@)),
{
    let chars = char_vec(s);
    let n = chars.len();
    let mut out = String::new();
    let mut in_word = false;
    let mut has_words = false;
    let mut i: usize = 0;
    while i < n
        invariant
            chars@ == s@,
            n == s@.len(),
            i <= n,
            out@ == join_words(words(s@.take(i as int))),
            has_words == (words(s@.take(i as int)).len() > 0),
            in_word == (i > 0 && !char_is_whitespace(s@[i - 1])),
        decreases n - i,
    {
        let c = chars[i];
        let ghost prefix = s@.take(i as int);
        let ghost ws = words(prefix);
        assert(s@.take(i + 1).drop_last() == prefix);
        assert(s@.take(i + 1).last() == c);
        let piece = s.substring_char(i, i + 1);
        assert(piece@ == seq![c]);
        if is_whitespace(c) {
            in_word = false;
        } else if in_word {
            proof {
                assert(prefix.last() == s@[i - 1]);
                lemma_words_nonempty(prefix);
                let grown = ws.drop_last().push(ws.last().push(c));
                assert(grown.drop_last() == ws.drop_last());
                if ws.len() == 1 {
                    assert(grown.len() == 1);
                } else {
                    assert(join_words(grown) == join_words(ws.drop_last()) + seq![' '] + ws.last().push(c));
                }
                assert(join_words(grown) == join_words(ws).push(c));
            }
            out.append(piece);
        } else {
            proof {
                let grown = ws.push(seq![c]);
                assert(grown.drop_last() == ws);
                if i > 0 {
                    assert(prefix.last() == s@[i - 1]);
                }
                reveal_strlit(" ");
                if ws.len() == 0 {
                    assert(grown.len() == 1);
                } else {
                    assert(join_words(grown) == join_words(ws) + seq![' '] + seq![c]);
                }
            }
            if has_words {
                out.append(" ");
            }
            out.append(piece);
            in_word = true;
            has_words = true;
        }
        i = i + 1;
    }
    assert(s@.take(n as int) == s@);
    out
}

/// Whether some character of `s` is not whitespace.
pub open spec fn has_non_whitespace(s: Seq<char>) -> bool {
    exists|k: int| 0 <= k < s.len() && !char_is_whitespace(#[trigger] s[k])
}

/// Whether `w` is a word: non-empty, with no whitespace in it.
pub open spec fn is_word(w: Seq<char>) -> bool {
    w.len() > 0 && !has_non_word_char(w)
}

/// Whether `w` holds a whitespace character.
pub open spec fn has_non_word_char(w: Seq<char>) -> bool {
    exists|k: int| 0 <= k < w.len() && char_is_whitespace(#[trigger] w[k])
}

/// A trailing whitespace character adds no word.
proof fn lemma_words_push_space(s: Seq<char>, c: char)
    requires
        char_is_whitespace(c),
    ensures
        words(s.push(c)) == words(s),
{
    assert(s.push(c).drop_last() == s);
}

/// Every word that `words` yields is a word.
proof fn lemma_words_are_words(s: Seq<char>)
    ensures
        forall|k: int| 0 <= k < words(s).len() ==> is_word(#[trigger] words(s)[k]),
    decreases s.len(),
{
    if s.len() > 0 {
        let init = s.drop_last();
        let c = s.last();
        lemma_words_are_words(init);
        let ws = words(init);
        if !char_is_whitespace(c) {
            if init.len() > 0 && !char_is_whitespace(init.last()) {
                lemma_words_nonempty(init);
                let grown = ws.last().push(c);
                assert(is_word(ws[ws.len() - 1]));
                assert(!has_non_word_char(grown)) by {
                    if has_non_word_char(grown) {
                        let k = choose|k: int| 0 <= k < grown.len() && char_is_whitespace(#[trigger] grown[k]);
                        if k < grown.len() - 1 {
                            assert(ws.last()[k] == grown[k]);
                        }
                    }
                }
                assert forall|k: int| 0 <= k < words(s).len() implies is_word(#[trigger] words(s)[k]) by {
                    if k < ws.len() - 1 {
                        assert(words(s)[k] == ws[k]);
                    } else {
                        assert(words(s)[k] == grown);
                    }
                }
            } else {
                let single = seq![c];
                assert(!has_non_word_char(single)) by {
                    if has_non_word_char(single) {
                        let k = choose|k: int| 0 <= k < single.len() && char_is_whitespace(#[trigger] single[k]);
                        assert(single[k] == c);
                    }
                }
                assert forall|k: int| 0 <= k < words(s).len() implies is_word(#[trigger] words(s)[k]) by {
                    if k < ws.len() {
                        assert(words(s)[k] == ws[k]);
                    }
                }
            }
        }
    }
}

/// Words split across a boundary that follows whitespace (or the start) are the
/// words of each side.
proof fn lemma_words_concat(a: Seq<char>, b: Seq<char>)
    requires
        a.len() == 0 || char_is_whitespace(a.last()),
    ensures
        words(a + b) == words(a) + words(b),
    decreases b.len(),
{
    if b.len() == 0 {
        assert(a + b == a);
        assert(words(a) + words(b) == words(a));
    } else {
        let b0 = b.drop_last();
        let c = b.last();
        lemma_words_concat(a, b0);
        assert((a + b).drop_last() == a + b0);
        assert((a + b).last() == c);
        let wa = words(a);
        let wb0 = words(b0);
        if char_is_whitespace(c) {
        } else if b0.len() > 0 && !char_is_whitespace(b0.last()) {
            lemma_words_nonempty(b0);
            assert((a + b0).last() == b0.last());
            let w = wa + wb0;
            assert(w.drop_last() == wa + wb0.drop_last());
            assert(w.last() == wb0.last());
            assert(wa + wb0.drop_last().push(wb0.last().push(c)) == (wa + wb0.drop_last()).push(
                wb0.last().push(c),
            ));
        } else {
            if b0.len() == 0 {
                assert(a + b0 == a);
            } else {
                assert((a + b0).last() == b0.last());
            }
            assert((wa + wb0).push(seq![c]) == wa + wb0.push(seq![c]));
        }
    }
}

/// A word appended after a boundary becomes one more word.
proof fn lemma_words_append_word(s: Seq<char>, w: Seq<char>)
    requires
        s.len() == 0 || char_is_whitespace(s.last()),
        is_word(w),
    ensures
        words(s + w) == words(s).push(w),
    decreases w.len(),
{
    lemma_words_concat(s, w);
    lemma_words_of_word(w);
    assert(words(s) + seq![w] == words(s).push(w));
}

/// The words of a single word are that word.
proof fn lemma_words_of_word(w: Seq<char>)
    requires
        is_word(w),
    ensures
        words(w) == seq![w],
    decreases w.len(),
{
    let init = w.drop_last();
    assert(!char_is_whitespace(w.last())) by {
        assert(w[w.len() - 1] == w.last());
    }
    if init.len() > 0 {
        assert(is_word(init)) by {
            if has_non_word_char(init) {
                let k = choose|k: int| 0 <= k < init.len() && char_is_whitespace(#[trigger] init[k]);
                assert(w[k] == init[k]);
            }
        }
        lemma_words_of_word(init);
        assert(init.last() == w[w.len() - 2]);
        assert(!char_is_whitespace(init.last()));
        assert(init.push(w.last()) == w);
        assert(seq![init].drop_last() == Seq::<Seq<char>>::empty());
        assert(seq![init].last() == init);
        assert(Seq::<Seq<char>>::empty().push(w) == seq![w]);
        assert(words(w) == seq![init].drop_last().push(seq![init].last().push(w.last())));
    } else {
        assert(w.drop_last().len() == 0);
        assert(words(w.drop_last()) == Seq::<Seq<char>>::empty());
        assert(seq![w.last()] == w);
        assert(Seq::<Seq<char>>::empty().push(w) == seq![w]);
    }
}

/// Joining two non-empty word lists puts one space between their joins.
proof fn lemma_join_concat(ws1: Seq<Seq<char>>, ws2: Seq<Seq<char>>)
    requires
        ws1.len() > 0,
        ws2.len() > 0,
    ensures
        join_words(ws1 + ws2) == join_words(ws1) + seq![' '] + join_words(ws2),
    decreases ws2.len(),
{
    let all = ws1 + ws2;
    if ws2.len() == 1 {
        assert(all.drop_last() == ws1);
        assert(all.last() == ws2[0]);
    } else {
        let rest = ws2.drop_last();
        lemma_join_concat(ws1, rest);
        assert(all.drop_last() == ws1 + rest);
        assert(all.last() == ws2.last());
    }
}

/// Reading back a join of words gives the same words.
proof fn lemma_words_of_join(ws: Seq<Seq<char>>)
    requires
        forall|k: int| 0 <= k < ws.len() ==> is_word(#[trigger] ws[k]),
    ensures
        words(join_words(ws)) == ws,
    decreases ws.len(),
{
    if ws.len() == 1 {
        lemma_words_of_word(ws[0]);
    } else if ws.len() > 1 {
        let front = ws.drop_last();
        lemma_words_of_join(front);
        let spaced = join_words(front).push(' ');
        assert(char_is_whitespace(' '));
        lemma_words_push_space(join_words(front), ' ');
        assert(join_words(front) + seq![' '] == spaced);
        lemma_words_append_word(spaced, ws.last());
        assert(front.push(ws.last()) == ws);
    }
}

/// A string with a non-whitespace character has a word.
proof fn lemma_has_words(s: Seq<char>)
    requires
        has_non_whitespace(s),
    ensures
        words(s).len() > 0,
    decreases s.len(),
{
    let init = s.drop_last();
    if !char_is_whitespace(s.last()) {
        lemma_words_nonempty(s);
    } else {
        let k = choose|k: int| 0 <= k < s.len() && !char_is_whitespace(#[trigger] s[k]);
        assert(k < s.len() - 1);
        assert(init[k] == s[k]);
        lemma_has_words(init);
        assert(s.drop_last() == init);
    }
}

/// Collapsing whitespace twice gives what collapsing once gives.
pub proof fn law_collapse_idempotent(s: Seq<char>)
    ensures
        join_words(words(join_words(words(s)))) == join_words(words(s)),
{
    lemma_words_are_words(s);
    lemma_words_of_join(words(s));
}

/// However two texts with words are separated and padded with whitespace, the
/// collapsed result is the two collapsed texts joined by one space.
pub proof fn law_collapse_separators(q: Seq<char>, r: Seq<char>)
    requires
        has_non_whitespace(q),
        has_non_whitespace(r),
    ensures
        join_words(words(seq!['\t'] + q + seq![' ', ' ', '\n'] + r + seq![' '])) == join_words(
            words(q),
        ) + seq![' '] + join_words(words(r)),
{
    let tab = seq!['\t'];
    let gap = seq![' ', ' ', '\n'];
    let qg = q + gap;
    let rs = r.push(' ');
    let whole = tab + q + gap + r + seq![' '];
    assert(whole == tab + (qg + rs));
    assert(char_is_whitespace('\t') && char_is_whitespace(' ') && char_is_whitespace('\n'));
    assert(tab.last() == '\t');
    lemma_words_concat(tab, qg + rs);
    assert(tab == Seq::<char>::empty().push('\t'));
    lemma_words_push_space(Seq::<char>::empty(), '\t');
    assert(words(tab) + words(qg + rs) == words(qg + rs));
    assert(qg.last() == '\n');
    lemma_words_concat(qg, rs);
    assert(qg == q.push(' ').push(' ').push('\n'));
    lemma_words_push_space(q.push(' ').push(' '), '\n');
    lemma_words_push_space(q.push(' '), ' ');
    lemma_words_push_space(q, ' ');
    lemma_words_push_space(r, ' ');
    lemma_has_words(q);
    lemma_has_words(r);
    lemma_join_concat(words(q), words(r));
}

/// Whether `c` is single-spaced: its only whitespace is single spaces, each
/// between two non-whitespace characters (so none leads or trails).
pub open spec fn single_spaced(c: Seq<char>) -> bool {
    forall|k: int|
        0 <= k < c.len() && char_is_whitespace(#[trigger] c[k]) ==> {
            &&& c[k] == ' '
            &&& 0 < k < c.len() - 1
            &&& !char_is_whitespace(c[k - 1])
            &&& !char_is_whitespace(c[k + 1])
        }
}

/// Words joined by single spaces are single-spaced, and a non-empty join
/// begins and ends with non-whitespace.
proof fn lemma_join_single_spaced(ws: Seq<Seq<char>>)
    requires
        forall|k: int| 0 <= k < ws.len() ==> is_word(#[trigger] ws[k]),
    ensures
        single_spaced(join_words(ws)),
        ws.len() > 0 ==> join_words(ws).len() > 0 && !char_is_whitespace(join_words(ws)[0])
            && !char_is_whitespace(join_words(ws).last()),
    decreases ws.len(),
{
    if ws.len() == 1 {
        let w = ws[0];
        assert(is_word(w));
        assert forall|k: int| 0 <= k < w.len() implies !char_is_whitespace(#[trigger] w[k]) by {
            if char_is_whitespace(w[k]) {
                assert(has_non_word_char(w));
            }
        }
        assert(w.last() == w[w.len() - 1]);
    } else if ws.len() > 1 {
        let front = ws.drop_last();
        let w = ws.last();
        assert(is_word(ws[ws.len() - 1]));
        lemma_join_single_spaced(front);
        let j = join_words(front);
        let c = join_words(ws);
        assert(c == j + seq![' '] + w);
        assert forall|k: int| 0 <= k < w.len() implies !char_is_whitespace(#[trigger] w[k]) by {
            if char_is_whitespace(w[k]) {
                assert(has_non_word_char(w));
            }
        }
        assert(j.last() == j[j.len() - 1]);
        assert forall|k: int| 0 <= k < c.len() && char_is_whitespace(#[trigger] c[k]) implies {
            &&& c[k] == ' '
            &&& 0 < k < c.len() - 1
            &&& !char_is_whitespace(c[k - 1])
            &&& !char_is_whitespace(c[k + 1])
        } by {
            if k < j.len() {
                assert(c[k] == j[k]);
                assert(c[k - 1] == j[k - 1]);
                assert(c[k + 1] == j[k + 1]);
            } else if k == j.len() {
                assert(c[k - 1] == j.last());
                assert(c[k + 1] == w[0]);
            } else {
                assert(c[k] == w[k - j.len() - 1]);
            }
        }
        assert(c[0] == j[0]);
        assert(c.last() == w[w.len() - 1]);
    }
}

/// A single-spaced text is the join of its own words.
proof fn lemma_single_spaced_is_join(c: Seq<char>)
    requires
        single_spaced(c),
    ensures
        c == join_words(words(c)),
    decreases c.len(),
{
    if c.len() > 0 {
        let x = c.last();
        let init = c.drop_last();
        assert(!char_is_whitespace(x)) by {
            if char_is_whitespace(c[c.len() - 1]) {
            }
        }
        if init.len() == 0 {
            assert(words(init) == Seq::<Seq<char>>::empty());
            assert(seq![x] == c);
        } else if !char_is_whitespace(init.last()) {
            assert(single_spaced(init)) by {
                assert forall|k: int| 0 <= k < init.len() && char_is_whitespace(#[trigger] init[k]) implies {
                    &&& init[k] == ' '
                    &&& 0 < k < init.len() - 1
                    &&& !char_is_whitespace(init[k - 1])
                    &&& !char_is_whitespace(init[k + 1])
                } by {
                    assert(init[k] == c[k]);
                    assert(k != init.len() - 1);
                    assert(init[k - 1] == c[k - 1]);
                    assert(init[k + 1] == c[k + 1]);
                }
            }
            lemma_single_spaced_is_join(init);
            lemma_words_nonempty(init);
            let ws = words(init);
            let grown = ws.drop_last().push(ws.last().push(x));
            assert(grown.drop_last() == ws.drop_last());
            if ws.len() == 1 {
                assert(grown.len() == 1);
            } else {
                assert(join_words(grown) == join_words(ws.drop_last()) + seq![' '] + ws.last().push(x));
            }
            assert(join_words(grown) == join_words(ws).push(x));
            assert(init.push(x) == c);
        } else {
            let k = init.len() - 1;
            assert(char_is_whitespace(c[k]));
            assert(c[k] == ' ');
            let core = c.take(k);
            assert(core.len() > 0);
            assert(core.last() == c[k - 1]);
            assert(single_spaced(core)) by {
                assert forall|i: int| 0 <= i < core.len() && char_is_whitespace(#[trigger] core[i]) implies {
                    &&& core[i] == ' '
                    &&& 0 < i < core.len() - 1
                    &&& !char_is_whitespace(core[i - 1])
                    &&& !char_is_whitespace(core[i + 1])
                } by {
                    assert(core[i] == c[i]);
                    assert(i != core.len() - 1);
                    assert(core[i - 1] == c[i - 1]);
                    assert(core[i + 1] == c[i + 1]);
                }
            }
            lemma_single_spaced_is_join(core);
            lemma_words_nonempty(core);
            assert(init == core.push(' '));
            lemma_words_push_space(core, ' ');
            let ws = words(core);
            let grown = ws.push(seq![x]);
            assert(grown.drop_last() == ws);
            assert(join_words(grown) == join_words(ws) + seq![' '] + seq![x]);
            assert(core + seq![' '] + seq![x] == c);
        }
    }
}

/// The collapsed form of `s` is single-spaced with the words of `s`, and it is
/// the only text that is.
pub proof fn law_collapsed_form_is_unique(s: Seq<char>, c: Seq<char>)
    ensures
        single_spaced(join_words(words(s))),
        words(join_words(words(s))) == words(s),
        words(c) == words(s) && single_spaced(c) ==> c == join_words(words(s)),
{
    lemma_words_are_words(s);
    lemma_join_single_spaced(words(s));
    lemma_words_of_join(words(s));
    if single_spaced(c) {
        lemma_single_spaced_is_join(c);
    }
}

} // verus!
