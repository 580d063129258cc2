//! Chunking keeps words whole: when no word is over the limit, the chunks
//! joined by spaces hold exactly the words of the text, in order.
use vstd::prelude::*;

use super::chunking::{
    char_splitter, ends_sentence, pack, pack_scan, push_nonempty, sentence_scan, sentences,
    text_chunks, word_chunks, word_scan, word_splitter, words, join_with_space,
};
use crate::text::{is_white_space, trim, trim_end, trim_start};

verus! {

/// The pieces joined by single spaces, as `join(" ")` gives them.
pub open spec fn join_spaces(pieces: Seq<Seq<char>>) -> Seq<char>
    decreases pieces.len(),
{
    if pieces.len() == 0 {
        Seq::empty()
    } else if pieces.len() == 1 {
        pieces[0]
    } else {
        join_spaces(pieces.drop_last()) + seq![' '] + pieces.last()
    }
}

/// The words of each piece, one piece after another.
pub open spec fn words_of_all(pieces: Seq<Seq<char>>) -> Seq<Seq<char>>
    decreases pieces.len(),
{
    if pieces.len() == 0 {
        Seq::empty()
    } else {
        words_of_all(pieces.drop_last()) + words(pieces.last())
    }
}

spec fn empty_state() -> (Seq<Seq<char>>, Seq<char>) {
    (Seq::empty(), Seq::empty())
}

spec fn word_step(st: (Seq<Seq<char>>, Seq<char>), c: char) -> (Seq<Seq<char>>, Seq<char>) {
    if is_white_space(c) {
        (push_nonempty(st.0, st.1), Seq::empty())
    } else {
        (st.0, st.1.push(c))
    }
}

spec fn word_scan_from(st: (Seq<Seq<char>>, Seq<char>), s: Seq<char>) -> (
    Seq<Seq<char>>,
    Seq<char>,
)
    decreases s.len(),
{
    if s.len() == 0 {
        st
    } else {
        word_step(word_scan_from(st, s.drop_last()), s.last())
    }
}

spec fn finish(st: (Seq<Seq<char>>, Seq<char>)) -> Seq<Seq<char>> {
    push_nonempty(st.0, st.1)
}

proof fn lemma_word_scan_is_scan_from(s: Seq<char>, n: nat)
    requires
        n <= s.len(),
    ensures
        word_scan(s, n) == word_scan_from(empty_state(), s.take(n as int)),
    decreases n,
{
    if n > 0 {
        lemma_word_scan_is_scan_from(s, (n - 1) as nat);
        assert(s.take(n as int).drop_last() =~= s.take(n - 1));
        assert(s.take(n as int).last() == s[n - 1]);
    } else {
        assert(s.take(0) =~= Seq::<char>::empty());
    }
}

proof fn lemma_words_by_scan(s: Seq<char>)
    ensures
        words(s) == finish(word_scan_from(empty_state(), s)),
{
    lemma_word_scan_is_scan_from(s, s.len());
    assert(s.take(s.len() as int) =~= s);
}

proof fn lemma_scan_from_append(st: (Seq<Seq<char>>, Seq<char>), a: Seq<char>, b: Seq<char>)
    ensures
        word_scan_from(st, a + b) == word_scan_from(word_scan_from(st, a), b),
    decreases b.len(),
{
    if b.len() == 0 {
        assert(a + b =~= a);
    } else {
        lemma_scan_from_append(st, a, b.drop_last());
        assert((a + b).drop_last() =~= a + b.drop_last());
        assert((a + b).last() == b.last());
    }
}

proof fn lemma_scan_from_acc(acc: Seq<Seq<char>>, b: Seq<char>)
    ensures
        word_scan_from((acc, Seq::empty()), b) == (
            acc + word_scan_from(empty_state(), b).0,
            word_scan_from(empty_state(), b).1,
        ),
    decreases b.len(),
{
    if b.len() == 0 {
        assert(acc + Seq::<Seq<char>>::empty() =~= acc);
    } else {
        lemma_scan_from_acc(acc, b.drop_last());
        let x = word_scan_from(empty_state(), b.drop_last());
        if is_white_space(b.last()) && x.1.len() > 0 {
            assert((acc + x.0).push(x.1) =~= acc + x.0.push(x.1));
        }
    }
}

proof fn lemma_words_empty()
    ensures
        words(Seq::<char>::empty()) == Seq::<Seq<char>>::empty(),
{
    lemma_words_by_scan(Seq::<char>::empty());
}

proof fn lemma_words_space(c: char)
    requires
        is_white_space(c),
    ensures
        words(seq![c]) == Seq::<Seq<char>>::empty(),
{
    lemma_words_by_scan(seq![c]);
    assert(seq![c].drop_last() =~= Seq::<char>::empty());
    assert(word_scan_from(empty_state(), seq![c].drop_last()) == empty_state());
    assert(seq![c].last() == c);
    assert(word_scan_from(empty_state(), seq![c]) == word_step(empty_state(), c));
    assert(push_nonempty(Seq::<Seq<char>>::empty(), Seq::<char>::empty()) == Seq::<Seq<char>>::empty());
}

/// Text that meets at whitespace splits into the words of each side.
proof fn lemma_words_split(a: Seq<char>, b: Seq<char>)
    requires
        a.len() == 0 || b.len() == 0 || is_white_space(a.last()) || is_white_space(b[0]),
    ensures
        words(a + b) == words(a) + words(b),
    decreases b.len(),
{
    lemma_words_by_scan(a);
    lemma_words_by_scan(b);
    lemma_words_by_scan(a + b);
    if a.len() == 0 {
        assert(a + b =~= b);
        lemma_words_empty();
        assert(words(a) + words(b) =~= words(b));
    } else if b.len() == 0 {
        assert(a + b =~= a);
        lemma_words_empty();
        assert(words(a) + words(b) =~= words(a));
    } else if is_white_space(a.last()) {
        let sa = word_scan_from(empty_state(), a);
        let pre = word_scan_from(empty_state(), a.drop_last());
        assert(sa == word_step(pre, a.last()));
        assert(sa.1 == Seq::<char>::empty());
        assert(words(a) == sa.0);
        lemma_scan_from_append(empty_state(), a, b);
        assert(sa == (words(a), Seq::<char>::empty()));
        lemma_scan_from_acc(words(a), b);
        let sb = word_scan_from(empty_state(), b);
        if sb.1.len() > 0 {
            assert((words(a) + sb.0).push(sb.1) =~= words(a) + sb.0.push(sb.1));
        } else {
            assert(words(a) + sb.0 == words(a) + finish(sb));
        }
    } else {
        let b0 = seq![b[0]];
        let rest = b.skip(1);
        assert(b =~= b0 + rest);
        assert(a + b =~= (a + b0) + rest);
        assert((a + b0).last() == b[0]);
        lemma_words_split(a + b0, rest);
        assert(b0.last() == b[0]);
        lemma_words_split(b0, rest);
        lemma_words_space(b[0]);
        lemma_words_by_scan(a + b0);
        lemma_scan_from_append(empty_state(), a, b0);
        assert(b0.drop_last() =~= Seq::<char>::empty());
        let sa = word_scan_from(empty_state(), a);
        assert(word_scan_from(sa, b0.drop_last()) == sa);
        assert(word_scan_from(sa, b0) == word_step(sa, b[0]));
        assert(words(a + b0) == words(a));
        assert(Seq::<Seq<char>>::empty() + words(rest) =~= words(rest));
    }
}

proof fn lemma_words_join_with_space(a: Seq<char>, b: Seq<char>)
    ensures
        words(join_with_space(a, b)) == words(a) + words(b),
{
    if a.len() == 0 {
        lemma_words_empty();
        assert(words(a) + words(b) =~= words(b));
    } else {
        let sp = seq![' '];
        assert((' ' as u32) == 0x20);
        assert(is_white_space(' '));
        assert(a + sp + b =~= (a + sp) + b);
        assert((a + sp).last() == ' ');
        lemma_words_split(a + sp, b);
        lemma_words_split(a, sp);
        lemma_words_space(' ');
        assert(words(a) + Seq::<Seq<char>>::empty() =~= words(a));
    }
}

proof fn lemma_words_of_all_push(pieces: Seq<Seq<char>>, x: Seq<char>)
    ensures
        words_of_all(pieces.push(x)) == words_of_all(pieces) + words(x),
{
    assert(pieces.push(x).drop_last() =~= pieces);
}

proof fn lemma_words_of_all_append(a: Seq<Seq<char>>, b: Seq<Seq<char>>)
    ensures
        words_of_all(a + b) == words_of_all(a) + words_of_all(b),
    decreases b.len(),
{
    if b.len() == 0 {
        assert(a + b =~= a);
        assert(words_of_all(a) + words_of_all(b) =~= words_of_all(a));
    } else {
        lemma_words_of_all_append(a, b.drop_last());
        assert((a + b).drop_last() =~= a + b.drop_last());
        assert((a + b).last() == b.last());
        assert(words_of_all(a) + (words_of_all(b.drop_last()) + words(b.last())) =~= (
        words_of_all(a) + words_of_all(b.drop_last())) + words(b.last()));
    }
}

proof fn lemma_words_of_all_push_nonempty(acc: Seq<Seq<char>>, p: Seq<char>)
    ensures
        words_of_all(push_nonempty(acc, p)) == words_of_all(acc) + words(p),
{
    if p.len() > 0 {
        lemma_words_of_all_push(acc, p);
    } else {
        assert(p =~= Seq::<char>::empty());
        lemma_words_empty();
        assert(words_of_all(acc) + words(p) =~= words_of_all(acc));
    }
}

/// The words of pieces joined by spaces are the words of each piece in turn.
pub proof fn lemma_words_join_spaces(pieces: Seq<Seq<char>>)
    ensures
        words(join_spaces(pieces)) == words_of_all(pieces),
    decreases pieces.len(),
{
    if pieces.len() == 0 {
        lemma_words_empty();
    } else if pieces.len() == 1 {
        assert(pieces.drop_last() =~= Seq::<Seq<char>>::empty());
        assert(words_of_all(pieces.drop_last()) == Seq::<Seq<char>>::empty());
        assert(pieces.last() == pieces[0]);
        assert(Seq::<Seq<char>>::empty() + words(pieces[0]) =~= words(pieces[0]));
    } else {
        let init = pieces.drop_last();
        lemma_words_join_spaces(init);
        let sp = seq![' '];
        assert((' ' as u32) == 0x20);
        assert(is_white_space(' '));
        assert((join_spaces(init) + sp).last() == ' ');
        lemma_words_split(join_spaces(init) + sp, pieces.last());
        lemma_words_split(join_spaces(init), sp);
        lemma_words_space(' ');
        assert(words(join_spaces(init)) + Seq::<Seq<char>>::empty() =~= words(join_spaces(init)));
        assert(join_spaces(pieces) == join_spaces(init) + sp + pieces.last());
        assert(words_of_all(pieces) == words_of_all(init) + words(pieces.last()));
    }
}

proof fn lemma_words_trim_start(s: Seq<char>)
    ensures
        words(trim_start(s)) == words(s),
    decreases s.len(),
{
    if s.len() > 0 && is_white_space(s[0]) {
        lemma_words_trim_start(s.drop_first());
        assert(s =~= seq![s[0]] + s.drop_first());
        assert(seq![s[0]].last() == s[0]);
        lemma_words_split(seq![s[0]], s.drop_first());
        lemma_words_space(s[0]);
        assert(Seq::<Seq<char>>::empty() + words(s.drop_first()) =~= words(s.drop_first()));
    }
}

proof fn lemma_words_trim_end(s: Seq<char>)
    ensures
        words(trim_end(s)) == words(s),
    decreases s.len(),
{
    if s.len() > 0 && is_white_space(s.last()) {
        lemma_words_trim_end(s.drop_last());
        assert(s =~= s.drop_last() + seq![s.last()]);
        assert(seq![s.last()][0] == s.last());
        lemma_words_split(s.drop_last(), seq![s.last()]);
        lemma_words_space(s.last());
        assert(words(s.drop_last()) + Seq::<Seq<char>>::empty() =~= words(s.drop_last()));
    }
}

/// Trimming keeps every word.
pub proof fn lemma_words_trim(s: Seq<char>)
    ensures
        words(trim(s)) == words(s),
{
    lemma_words_trim_end(trim_start(s));
    lemma_words_trim_start(s);
}

proof fn lemma_sentence_scan_words(s: Seq<char>, n: nat)
    requires
        n <= s.len(),
    ensures
        ({
            let st = sentence_scan(s, n);
            let k = n - st.1.len();
            &&& st.1.len() <= n
            &&& st.1 == s.subrange(k, n as int)
            &&& words_of_all(st.0) == words(s.take(k))
            &&& k > 0 ==> ends_sentence(s, k - 1)
            &&& k > 0 && st.1.len() > 0 ==> is_white_space(st.1[0])
        }),
    decreases n,
{
    if n == 0 {
        assert(s.take(0) =~= Seq::<char>::empty());
        lemma_words_empty();
    } else {
        let prev = sentence_scan(s, (n - 1) as nat);
        lemma_sentence_scan_words(s, (n - 1) as nat);
        let k = (n - 1) - prev.1.len();
        let cur = prev.1.push(s[n - 1]);
        assert(cur =~= s.subrange(k, n as int));
        if k > 0 && cur.len() > 0 {
            if prev.1.len() == 0 {
                assert(k == n - 1);
                assert(ends_sentence(s, k - 1));
                assert(is_white_space(cur[0]));
            } else {
                assert(cur[0] == prev.1[0]);
            }
        }
        if ends_sentence(s, n - 1) {
            assert(s.take(n as int) =~= s.take(k) + cur);
            if k > 0 && cur.len() > 0 {
                lemma_words_split(s.take(k), cur);
            } else if k == 0 {
                assert(s.take(k) =~= Seq::<char>::empty());
                lemma_words_split(s.take(k), cur);
            } else {
                lemma_words_split(s.take(k), cur);
            }
            lemma_words_trim(cur);
            lemma_words_of_all_push_nonempty(prev.0, trim(cur));
            assert(s.subrange(n as int, n as int) =~= Seq::<char>::empty());
        }
    }
}

/// Sentences are cut only where the text has whitespace: their words, one
/// sentence after another, are exactly the words of the text.
pub proof fn lemma_sentences_words(s: Seq<char>)
    ensures
        words_of_all(sentences(s)) == words(s),
        words(join_spaces(sentences(s))) == words(s),
{
    let st = sentence_scan(s, s.len());
    lemma_sentence_scan_words(s, s.len());
    let k = s.len() - st.1.len();
    assert(s =~= s.take(k) + st.1);
    if k > 0 && st.1.len() > 0 {
        lemma_words_split(s.take(k), st.1);
    } else {
        lemma_words_split(s.take(k), st.1);
    }
    lemma_words_trim(st.1);
    lemma_words_of_all_push_nonempty(st.0, trim(st.1));
    lemma_words_join_spaces(sentences(s));
}

/// What packing needs for words to survive: every over-long piece is split
/// into pieces that hold its words.
spec fn splits_keep_words(
    pieces: Seq<Seq<char>>,
    max: nat,
    split: spec_fn(Seq<char>) -> Seq<Seq<char>>,
) -> bool {
    forall|i: int|
        0 <= i < pieces.len() && #[trigger] pieces[i].len() > max ==> words_of_all(
            split(pieces[i]),
        ) == words(pieces[i])
}

proof fn lemma_pack_scan_words(
    pieces: Seq<Seq<char>>,
    n: nat,
    max: nat,
    split: spec_fn(Seq<char>) -> Seq<Seq<char>>,
)
    requires
        n <= pieces.len(),
        splits_keep_words(pieces, max, split),
    ensures
        words_of_all(pack_scan(pieces, n, max, split).0) + words(pack_scan(pieces, n, max, split).1)
            == words_of_all(pieces.take(n as int)),
    decreases n,
{
    if n == 0 {
        assert(pieces.take(0) =~= Seq::<Seq<char>>::empty());
        lemma_words_empty();
        assert(Seq::<Seq<char>>::empty() + Seq::<Seq<char>>::empty() =~= Seq::<Seq<char>>::empty());
    } else {
        let st = pack_scan(pieces, (n - 1) as nat, max, split);
        lemma_pack_scan_words(pieces, (n - 1) as nat, max, split);
        let p = pieces[n - 1];
        assert(pieces.take(n as int) =~= pieces.take(n - 1).push(p));
        lemma_words_of_all_push(pieces.take(n - 1), p);
        lemma_words_empty();
        if p.len() > max {
            lemma_words_of_all_push_nonempty(st.0, st.1);
            lemma_words_of_all_append(push_nonempty(st.0, st.1), split(p));
            assert(words_of_all(push_nonempty(st.0, st.1) + split(p)) + Seq::<Seq<char>>::empty()
                =~= (words_of_all(st.0) + words(st.1)) + words(p));
        } else if join_with_space(st.1, p).len() > max {
            lemma_words_of_all_push(st.0, st.1);
        } else {
            lemma_words_join_with_space(st.1, p);
            assert(words_of_all(st.0) + (words(st.1) + words(p)) =~= (words_of_all(st.0) + words(
                st.1,
            )) + words(p));
        }
    }
}

proof fn lemma_pack_words(
    pieces: Seq<Seq<char>>,
    max: nat,
    split: spec_fn(Seq<char>) -> Seq<Seq<char>>,
)
    requires
        splits_keep_words(pieces, max, split),
    ensures
        words_of_all(pack(pieces, max, split)) == words_of_all(pieces),
{
    let st = pack_scan(pieces, pieces.len(), max, split);
    lemma_pack_scan_words(pieces, pieces.len(), max, split);
    lemma_words_of_all_push_nonempty(st.0, st.1);
    assert(pieces.take(pieces.len() as int) =~= pieces);
}

proof fn lemma_word_scan_parts(s: Seq<char>, n: nat)
    requires
        n <= s.len(),
    ensures
        forall|i: int|
            0 <= i < word_scan(s, n).0.len() ==> #[trigger] word_scan(s, n).0[i].len() > 0 && (
            forall|j: int|
                0 <= j < word_scan(s, n).0[i].len() ==> !is_white_space(word_scan(s, n).0[i][j])),
        forall|j: int|
            0 <= j < word_scan(s, n).1.len() ==> !is_white_space(#[trigger] word_scan(s, n).1[j]),
    decreases n,
{
    if n > 0 {
        lemma_word_scan_parts(s, (n - 1) as nat);
        let prev = word_scan(s, (n - 1) as nat);
        if is_white_space(s[n - 1]) {
            assert forall|i: int| 0 <= i < word_scan(s, n).0.len() implies #[trigger] word_scan(
                s,
                n,
            ).0[i].len() > 0 && (forall|j: int|
                0 <= j < word_scan(s, n).0[i].len() ==> !is_white_space(
                    word_scan(s, n).0[i][j],
                )) by {
                if i < prev.0.len() {
                    assert(word_scan(s, n).0[i] == prev.0[i]);
                } else {
                    assert(word_scan(s, n).0[i] == prev.1);
                }
            }
        } else {
            assert forall|j: int| 0 <= j < word_scan(s, n).1.len() implies !is_white_space(
                #[trigger] word_scan(s, n).1[j],
            ) by {
                if j < prev.1.len() {
                    assert(word_scan(s, n).1[j] == prev.1[j]);
                }
            }
        }
    }
}

/// A run of non-whitespace characters is one word.
proof fn lemma_single_word(w: Seq<char>)
    requires
        w.len() > 0,
        forall|j: int| 0 <= j < w.len() ==> !is_white_space(#[trigger] w[j]),
    ensures
        words(w) == seq![w],
{
    lemma_scan_word_chars(w);
    lemma_words_by_scan(w);
}

proof fn lemma_scan_word_chars(w: Seq<char>)
    requires
        forall|j: int| 0 <= j < w.len() ==> !is_white_space(#[trigger] w[j]),
    ensures
        word_scan_from(empty_state(), w) == (Seq::<Seq<char>>::empty(), w),
    decreases w.len(),
{
    if w.len() > 0 {
        assert forall|j: int| 0 <= j < w.drop_last().len() implies !is_white_space(
            #[trigger] w.drop_last()[j],
        ) by {
            assert(w.drop_last()[j] == w[j]);
        }
        lemma_scan_word_chars(w.drop_last());
        assert(w.drop_last().push(w.last()) =~= w);
    } else {
        assert(w =~= Seq::<char>::empty());
    }
}

proof fn lemma_words_of_words(s: Seq<char>)
    ensures
        words_of_all(words(s)) == words(s),
{
    let st = word_scan(s, s.len());
    lemma_word_scan_parts(s, s.len());
    let ws = words(s);
    assert forall|i: int| 0 <= i < ws.len() implies words(#[trigger] ws[i]) == seq![ws[i]] by {
        if i < st.0.len() {
            assert(ws[i] == st.0[i]);
        } else {
            assert(ws[i] == st.1);
        }
        lemma_single_word(ws[i]);
    }
    lemma_words_of_singles(ws);
}

proof fn lemma_words_of_singles(ws: Seq<Seq<char>>)
    requires
        forall|i: int| 0 <= i < ws.len() ==> words(#[trigger] ws[i]) == seq![ws[i]],
    ensures
        words_of_all(ws) == ws,
    decreases ws.len(),
{
    if ws.len() > 0 {
        assert forall|i: int| 0 <= i < ws.drop_last().len() implies words(
            #[trigger] ws.drop_last()[i],
        ) == seq![ws.drop_last()[i]] by {
            assert(ws.drop_last()[i] == ws[i]);
        }
        lemma_words_of_singles(ws.drop_last());
        assert(words(ws.last()) == seq![ws[ws.len() - 1]]);
        assert(ws.drop_last() + seq![ws.last()] =~= ws);
    }
}

/// When no word of a sentence is over the limit, packing it word by word keeps
/// its words.
proof fn lemma_word_chunks_words(s: Seq<char>, max: nat)
    requires
        forall|i: int| 0 <= i < words(s).len() ==> #[trigger] words(s)[i].len() <= max,
    ensures
        words_of_all(word_chunks(s, max)) == words(s),
{
    lemma_pack_words(words(s), max, char_splitter(max));
    lemma_words_of_words(s);
}

proof fn lemma_words_of_all_element(pieces: Seq<Seq<char>>, i: int, j: int)
    requires
        0 <= i < pieces.len(),
        0 <= j < words(pieces[i]).len(),
    ensures
        words_of_all(pieces.take(i)).len() + j < words_of_all(pieces).len(),
        words_of_all(pieces)[words_of_all(pieces.take(i)).len() + j] == words(pieces[i])[j],
{
    assert(pieces =~= (pieces.take(i) + seq![pieces[i]]) + pieces.skip(i + 1));
    lemma_words_of_all_append(pieces.take(i) + seq![pieces[i]], pieces.skip(i + 1));
    lemma_words_of_all_push(pieces.take(i), pieces[i]);
    assert(pieces.take(i).push(pieces[i]) =~= pieces.take(i) + seq![pieces[i]]);
}

/// When no word of `text` is longer than `max`, the chunks joined by single
/// spaces hold exactly the words of `text`, in order: no word is cut, merged,
/// dropped or moved.
pub proof fn lemma_chunks_keep_words(text: Seq<char>, max: nat)
    requires
        forall|i: int| 0 <= i < words(text).len() ==> #[trigger] words(text)[i].len() <= max,
    ensures
        words(join_spaces(text_chunks(text, max))) == words(text),
{
    let t = trim(text);
    let ss = sentences(t);
    lemma_sentences_words(t);
    lemma_words_trim(text);
    assert forall|i: int| 0 <= i < ss.len() && #[trigger] ss[i].len() > max implies words_of_all(
        word_splitter(max)(ss[i]),
    ) == words(ss[i]) by {
        assert forall|j: int| 0 <= j < words(ss[i]).len() implies #[trigger] words(ss[i])[j].len()
            <= max by {
            lemma_words_of_all_element(ss, i, j);
        }
        lemma_word_chunks_words(ss[i], max);
    }
    lemma_pack_words(ss, max, word_splitter(max));
    lemma_words_join_spaces(text_chunks(text, max));
}

} // verus!
