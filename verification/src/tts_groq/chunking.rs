//! Splitting text into request-sized pieces for the Orpheus speech model.
//!
//! Text is cut into sentences first; sentences are packed greedily into chunks
//! joined by single spaces. A sentence longer than the limit is packed word by
//! word instead, and a word longer than the limit is cut into fixed-size runs
//! of characters.
use vstd::prelude::*;

use super::word_laws::{join_spaces, lemma_chunks_keep_words};
use crate::text::{
    char_views, chars_of, concat_all, is_white_space, is_whitespace, lemma_concat_all_append,
    lemma_concat_all_push, lemma_non_space_append, lemma_non_space_trim, lemma_trim_edges,
    lemma_trim_end_is_prefix, lemma_trim_start_is_suffix, non_space, string_of, trim_end, trim_start,
    string_views, trim, trim_chars,
};

verus! {

/// Punctuation that can end a sentence.
pub open spec fn is_sentence_mark(c: char) -> bool {
    c == '.' || c == '!' || c == '?'
}

/// A sentence ends at index `i` of `s` when `s[i]` is `.`, `!` or `?` and the
/// next character is whitespace or there is none.
pub open spec fn ends_sentence(s: Seq<char>, i: int) -> bool {
    is_sentence_mark(s[i]) && (i + 1 >= s.len() || is_white_space(s[i + 1]))
}

/// `acc` with `piece` appended, unless `piece` is empty.
pub open spec fn push_nonempty(acc: Seq<Seq<char>>, piece: Seq<char>) -> Seq<Seq<char>> {
    if piece.len() > 0 {
        acc.push(piece)
    } else {
        acc
    }
}

/// After reading the first `n` characters of `s`: the sentences completed so
/// far (trimmed, empty ones dropped) and the characters of the open sentence.
pub open spec fn sentence_scan(s: Seq<char>, n: nat) -> (Seq<Seq<char>>, Seq<char>)
    decreases n,
{
    if n == 0 {
        (Seq::empty(), Seq::empty())
    } else {
        let prev = sentence_scan(s, (n - 1) as nat);
        let cur = prev.1.push(s[n - 1]);
        if ends_sentence(s, n - 1) {
            (push_nonempty(prev.0, trim(cur)), Seq::empty())
        } else {
            (prev.0, cur)
        }
    }
}

/// The sentences of `s`, each trimmed and with its closing punctuation, empty
/// ones left out.
pub open spec fn sentences(s: Seq<char>) -> Seq<Seq<char>> {
    let st = sentence_scan(s, s.len());
    push_nonempty(st.0, trim(st.1))
}

/// After reading the first `n` characters of `s`: the words completed so far
/// and the characters of the open word.
pub open spec fn word_scan(s: Seq<char>, n: nat) -> (Seq<Seq<char>>, Seq<char>)
    decreases n,
{
    if n == 0 {
        (Seq::empty(), Seq::empty())
    } else {
        let prev = word_scan(s, (n - 1) as nat);
        if is_white_space(s[n - 1]) {
            (push_nonempty(prev.0, prev.1), Seq::empty())
        } else {
            (prev.0, prev.1.push(s[n - 1]))
        }
    }
}

/// The maximal runs of non-whitespace characters of `s`, as
/// `str::split_whitespace` gives them.
pub open spec fn words(s: Seq<char>) -> Seq<Seq<char>> {
    let st = word_scan(s, s.len());
    push_nonempty(st.0, st.1)
}

/// `w` cut into consecutive runs of `max` characters; the last run may be
/// shorter.
pub open spec fn char_pieces(w: Seq<char>, max: nat) -> Seq<Seq<char>>
    decreases w.len(),
{
    if max == 0 || w.len() == 0 {
        Seq::empty()
    } else if w.len() <= max {
        seq![w]
    } else {
        seq![w.take(max as int)] + char_pieces(w.skip(max as int), max)
    }
}

/// `cur` and `piece` joined by one space, or `piece` alone when `cur` is empty.
pub open spec fn join_with_space(cur: Seq<char>, piece: Seq<char>) -> Seq<char> {
    if cur.len() == 0 {
        piece
    } else {
        cur + seq![' '] + piece
    }
}

/// One step of greedy packing: a piece over the limit closes the open chunk
/// and is replaced by `split(piece)`; a piece that does not fit beside the
/// open chunk closes it and opens a new one; otherwise it joins the open chunk.
pub open spec fn pack_step(
    st: (Seq<Seq<char>>, Seq<char>),
    piece: Seq<char>,
    max: nat,
    split: spec_fn(Seq<char>) -> Seq<Seq<char>>,
) -> (Seq<Seq<char>>, Seq<char>) {
    if piece.len() > max {
        (push_nonempty(st.0, st.1) + split(piece), Seq::empty())
    } else if join_with_space(st.1, piece).len() > max {
        (st.0.push(st.1), piece)
    } else {
        (st.0, join_with_space(st.1, piece))
    }
}

/// The closed chunks and the open chunk after packing the first `n` pieces.
pub open spec fn pack_scan(
    pieces: Seq<Seq<char>>,
    n: nat,
    max: nat,
    split: spec_fn(Seq<char>) -> Seq<Seq<char>>,
) -> (Seq<Seq<char>>, Seq<char>)
    decreases n,
{
    if n == 0 {
        (Seq::empty(), Seq::empty())
    } else {
        pack_step(pack_scan(pieces, (n - 1) as nat, max, split), pieces[n - 1], max, split)
    }
}

/// All pieces packed greedily into chunks of at most `max` characters.
pub open spec fn pack(
    pieces: Seq<Seq<char>>,
    max: nat,
    split: spec_fn(Seq<char>) -> Seq<Seq<char>>,
) -> Seq<Seq<char>> {
    let st = pack_scan(pieces, pieces.len(), max, split);
    push_nonempty(st.0, st.1)
}

/// How an over-long word is cut.
pub open spec fn char_splitter(max: nat) -> spec_fn(Seq<char>) -> Seq<Seq<char>> {
    |w: Seq<char>| char_pieces(w, max)
}

/// A sentence packed word by word.
pub open spec fn word_chunks(sentence: Seq<char>, max: nat) -> Seq<Seq<char>> {
    pack(words(sentence), max, char_splitter(max))
}

/// How an over-long sentence is cut.
pub open spec fn word_splitter(max: nat) -> spec_fn(Seq<char>) -> Seq<Seq<char>> {
    |s: Seq<char>| word_chunks(s, max)
}

/// The chunks that `chunk_text` gives for `text` and the limit `max`.
pub open spec fn text_chunks(text: Seq<char>, max: nat) -> Seq<Seq<char>> {
    pack(sentences(trim(text)), max, word_splitter(max))
}

/// Every piece is non-empty and at most `max` characters long.
pub open spec fn all_within(pieces: Seq<Seq<char>>, max: nat) -> bool {
    forall|i: int| 0 <= i < pieces.len() ==> 0 < #[trigger] pieces[i].len() <= max
}


proof fn lemma_push_nonempty(acc: Seq<Seq<char>>, piece: Seq<char>, max: nat)
    requires
        all_within(acc, max),
        piece.len() <= max,
    ensures
        all_within(push_nonempty(acc, piece), max),
        concat_all(push_nonempty(acc, piece)) == concat_all(acc) + piece,
{
    if piece.len() > 0 {
        lemma_concat_all_push(acc, piece);
    } else {
        assert(concat_all(acc) + piece =~= concat_all(acc));
    }
}

proof fn lemma_push_nonempty_text(acc: Seq<Seq<char>>, piece: Seq<char>)
    ensures
        concat_all(push_nonempty(acc, piece)) == concat_all(acc) + piece,
        forall|i: int|
            0 <= i < push_nonempty(acc, piece).len() ==> (#[trigger] push_nonempty(acc, piece)[i]
                == acc[i] && i < acc.len()) || push_nonempty(acc, piece)[i] == piece,
{
    if piece.len() > 0 {
        lemma_concat_all_push(acc, piece);
    } else {
        assert(concat_all(acc) + piece =~= concat_all(acc));
    }
}

proof fn lemma_char_pieces(w: Seq<char>, max: nat)
    requires
        max > 0,
    ensures
        all_within(char_pieces(w, max), max),
        concat_all(char_pieces(w, max)) == w,
    decreases w.len(),
{
    assert(concat_all(Seq::<Seq<char>>::empty()) =~= Seq::<char>::empty());
    if w.len() == 0 {
        assert(w =~= Seq::<char>::empty());
    } else if w.len() <= max {
        assert(seq![w].drop_last() =~= Seq::<Seq<char>>::empty());
        assert(concat_all(seq![w]) == concat_all(seq![w].drop_last()) + w);
        assert(Seq::<char>::empty() + w =~= w);
    } else {
        let rest = char_pieces(w.skip(max as int), max);
        lemma_char_pieces(w.skip(max as int), max);
        lemma_concat_all_append(seq![w.take(max as int)], rest);
        assert(seq![w.take(max as int)].drop_last() =~= Seq::<Seq<char>>::empty());
        assert(Seq::<char>::empty() + w.take(max as int) =~= w.take(max as int));
        assert(w.take(max as int) + w.skip(max as int) =~= w);
        let all = seq![w.take(max as int)] + rest;
        assert forall|i: int| 0 <= i < all.len() implies 0 < #[trigger] all[i].len() <= max by {
            if i > 0 {
                assert(all[i] == rest[i - 1]);
            }
        }
    }
}

proof fn lemma_word_scan(s: Seq<char>, n: nat)
    requires
        n <= s.len(),
    ensures
        forall|i: int|
            0 <= i < word_scan(s, n).0.len() ==> #[trigger] word_scan(s, n).0[i].len() > 0,
        concat_all(word_scan(s, n).0) + word_scan(s, n).1 == non_space(s.take(n as int)),
    decreases n,
{
    if n > 0 {
        let prev = word_scan(s, (n - 1) as nat);
        lemma_word_scan(s, (n - 1) as nat);
        lemma_push_nonempty_text(prev.0, prev.1);
        assert(s.take(n as int).drop_last() =~= s.take(n - 1));
        assert(s.take(n as int).last() == s[n - 1]);
        if !is_white_space(s[n - 1]) {
            assert(concat_all(prev.0) + prev.1.push(s[n - 1]) =~= (concat_all(prev.0)
                + prev.1).push(s[n - 1]));
        } else {
            assert(concat_all(push_nonempty(prev.0, prev.1)) + Seq::<char>::empty() =~= concat_all(
                push_nonempty(prev.0, prev.1),
            ));
        }
    } else {
        assert(s.take(0) =~= Seq::<char>::empty());
        assert(Seq::<char>::empty() + Seq::<char>::empty() =~= Seq::<char>::empty());
    }
}

proof fn lemma_non_space_idem(s: Seq<char>)
    ensures
        non_space(non_space(s)) == non_space(s),
    decreases s.len(),
{
    if s.len() > 0 {
        lemma_non_space_idem(s.drop_last());
        if !is_white_space(s.last()) {
            let t = non_space(s.drop_last()).push(s.last());
            assert(t.drop_last() =~= non_space(s.drop_last()));
        }
    }
}

pub(crate) proof fn lemma_words(s: Seq<char>)
    ensures
        forall|i: int| 0 <= i < words(s).len() ==> #[trigger] words(s)[i].len() > 0,
        non_space(concat_all(words(s))) == non_space(s),
{
    let st = word_scan(s, s.len());
    lemma_word_scan(s, s.len());
    lemma_push_nonempty_text(st.0, st.1);
    assert(s.take(s.len() as int) =~= s);
    lemma_non_space_idem(s);
}

proof fn lemma_non_space_join(a: Seq<char>, p: Seq<char>)
    ensures
        non_space(join_with_space(a, p)) == non_space(a) + non_space(p),
{
    if a.len() == 0 {
        assert(non_space(a) =~= Seq::<char>::empty());
        assert(non_space(a) + non_space(p) =~= non_space(p));
    } else {
        lemma_non_space_append(a + seq![' '], p);
        lemma_non_space_append(a, seq![' ']);
        assert(seq![' '].drop_last() =~= Seq::<char>::empty());
        assert((' ' as u32) == 0x20);
        assert(is_white_space(' '));
        assert(non_space(Seq::<char>::empty()) =~= Seq::<char>::empty());
        assert(non_space(seq![' ']) == non_space(seq![' '].drop_last()));
        assert(non_space(seq![' ']) =~= Seq::<char>::empty());
        assert(non_space(a) + Seq::<char>::empty() =~= non_space(a));
    }
}

proof fn lemma_sentence_scan(s: Seq<char>, n: nat)
    requires
        n <= s.len(),
    ensures
        forall|i: int|
            0 <= i < sentence_scan(s, n).0.len() ==> #[trigger] sentence_scan(s, n).0[i].len()
                > 0,
        non_space(concat_all(sentence_scan(s, n).0)) + non_space(sentence_scan(s, n).1)
            == non_space(s.take(n as int)),
    decreases n,
{
    if n > 0 {
        let prev = sentence_scan(s, (n - 1) as nat);
        lemma_sentence_scan(s, (n - 1) as nat);
        let cur = prev.1.push(s[n - 1]);
        assert(s.take(n as int) =~= s.take(n - 1).push(s[n - 1]));
        assert(s.take(n - 1).push(s[n - 1]) =~= s.take(n - 1) + seq![s[n - 1]]);
        assert(cur =~= prev.1 + seq![s[n - 1]]);
        lemma_non_space_append(s.take(n - 1), seq![s[n - 1]]);
        lemma_non_space_append(prev.1, seq![s[n - 1]]);
        assert(non_space(concat_all(prev.0)) + non_space(cur) =~= non_space(s.take(n as int)));
        if ends_sentence(s, n - 1) {
            lemma_push_nonempty_text(prev.0, trim(cur));
            lemma_non_space_append(concat_all(prev.0), trim(cur));
            lemma_non_space_trim(cur);
            assert(non_space(Seq::<char>::empty()) =~= Seq::<char>::empty());
            assert(non_space(concat_all(prev.0)) + non_space(trim(cur)) + Seq::<char>::empty()
                =~= non_space(concat_all(prev.0)) + non_space(trim(cur)));
            assert forall|i: int|
                0 <= i < sentence_scan(s, n).0.len() implies #[trigger] sentence_scan(
                s,
                n,
            ).0[i].len() > 0 by {
                if i < prev.0.len() {
                    assert(sentence_scan(s, n).0[i] == prev.0[i]);
                }
            }
        }
    } else {
        assert(s.take(0) =~= Seq::<char>::empty());
        assert(non_space(Seq::<char>::empty()) =~= Seq::<char>::empty());
        assert(Seq::<char>::empty() + Seq::<char>::empty() =~= Seq::<char>::empty());
    }
}

pub(crate) proof fn lemma_sentences(s: Seq<char>)
    ensures
        forall|i: int| 0 <= i < sentences(s).len() ==> #[trigger] sentences(s)[i].len() > 0,
        non_space(concat_all(sentences(s))) == non_space(s),
{
    let st = sentence_scan(s, s.len());
    lemma_sentence_scan(s, s.len());
    lemma_push_nonempty_text(st.0, trim(st.1));
    lemma_non_space_append(concat_all(st.0), trim(st.1));
    lemma_non_space_trim(st.1);
    assert(s.take(s.len() as int) =~= s);
    assert forall|i: int| 0 <= i < sentences(s).len() implies #[trigger] sentences(s)[i].len()
        > 0 by {
        if i < st.0.len() {
            assert(sentences(s)[i] == st.0[i]);
        }
    }
}

/// What packing needs of its pieces: none is empty, and each over-long piece is
/// split into pieces within the limit that keep its non-whitespace text.
pub open spec fn splits_well(
    pieces: Seq<Seq<char>>,
    max: nat,
    split: spec_fn(Seq<char>) -> Seq<Seq<char>>,
) -> bool {
    &&& forall|i: int| 0 <= i < pieces.len() ==> #[trigger] pieces[i].len() > 0
    &&& forall|i: int|
        0 <= i < pieces.len() && #[trigger] pieces[i].len() > max ==> all_within(
            split(pieces[i]),
            max,
        ) && non_space(concat_all(split(pieces[i]))) == non_space(pieces[i])
}

proof fn lemma_pack_scan(
    pieces: Seq<Seq<char>>,
    n: nat,
    max: nat,
    split: spec_fn(Seq<char>) -> Seq<Seq<char>>,
)
    requires
        n <= pieces.len(),
        splits_well(pieces, max, split),
    ensures
        all_within(pack_scan(pieces, n, max, split).0, max),
        pack_scan(pieces, n, max, split).1.len() <= max,
        non_space(concat_all(pack_scan(pieces, n, max, split).0)) + non_space(
            pack_scan(pieces, n, max, split).1,
        ) == non_space(concat_all(pieces.take(n as int))),
    decreases n,
{
    if n == 0 {
        assert(pieces.take(0) =~= Seq::<Seq<char>>::empty());
        assert(non_space(Seq::<char>::empty()) =~= Seq::<char>::empty());
        assert(Seq::<char>::empty() + Seq::<char>::empty() =~= Seq::<char>::empty());
    } else {
        let st = pack_scan(pieces, (n - 1) as nat, max, split);
        lemma_pack_scan(pieces, (n - 1) as nat, max, split);
        let p = pieces[n - 1];
        assert(pieces.take(n as int) =~= pieces.take(n - 1).push(p));
        lemma_concat_all_push(pieces.take(n - 1), p);
        lemma_non_space_append(concat_all(pieces.take(n - 1)), p);
        let prev_text = non_space(concat_all(pieces.take(n - 1)));
        assert(non_space(Seq::<char>::empty()) =~= Seq::<char>::empty());
        if p.len() > max {
            lemma_push_nonempty(st.0, st.1, max);
            let closed = push_nonempty(st.0, st.1);
            lemma_concat_all_append(closed, split(p));
            lemma_non_space_append(concat_all(closed), concat_all(split(p)));
            lemma_non_space_append(concat_all(st.0), st.1);
            let all = closed + split(p);
            assert forall|i: int| 0 <= i < all.len() implies 0 < #[trigger] all[i].len()
                <= max by {
                if i >= closed.len() {
                    assert(all[i] == split(p)[i - closed.len()]);
                }
            }
            assert(non_space(concat_all(all)) + Seq::<char>::empty() =~= non_space(
                concat_all(all),
            ));
            assert(non_space(concat_all(all)) =~= prev_text + non_space(p));
        } else if join_with_space(st.1, p).len() > max {
            lemma_concat_all_push(st.0, st.1);
            lemma_non_space_append(concat_all(st.0), st.1);
            assert(st.1.len() > 0);
            assert forall|i: int| 0 <= i < st.0.push(st.1).len() implies 0 < #[trigger] st.0.push(
                st.1,
            )[i].len() <= max by {
                if i < st.0.len() {
                    assert(st.0.push(st.1)[i] == st.0[i]);
                }
            }
        } else {
            lemma_non_space_join(st.1, p);
            assert(non_space(concat_all(st.0)) + (non_space(st.1) + non_space(p)) =~= (non_space(
                concat_all(st.0),
            ) + non_space(st.1)) + non_space(p));
        }
    }
}

proof fn lemma_pack(pieces: Seq<Seq<char>>, max: nat, split: spec_fn(Seq<char>) -> Seq<Seq<char>>)
    requires
        splits_well(pieces, max, split),
    ensures
        all_within(pack(pieces, max, split), max),
        non_space(concat_all(pack(pieces, max, split))) == non_space(concat_all(pieces)),
{
    let st = pack_scan(pieces, pieces.len(), max, split);
    lemma_pack_scan(pieces, pieces.len(), max, split);
    lemma_push_nonempty(st.0, st.1, max);
    lemma_non_space_append(concat_all(st.0), st.1);
    assert(pieces.take(pieces.len() as int) =~= pieces);
}

proof fn lemma_word_chunks(sentence: Seq<char>, max: nat)
    requires
        max > 0,
    ensures
        all_within(word_chunks(sentence, max), max),
        non_space(concat_all(word_chunks(sentence, max))) == non_space(sentence),
{
    let ws = words(sentence);
    lemma_words(sentence);
    assert forall|i: int| 0 <= i < ws.len() && #[trigger] ws[i].len() > max implies all_within(
        char_splitter(max)(ws[i]),
        max,
    ) && non_space(concat_all(char_splitter(max)(ws[i]))) == non_space(ws[i]) by {
        lemma_char_pieces(ws[i], max);
    }
    lemma_pack(ws, max, char_splitter(max));
}

proof fn lemma_chunks_keep_words_if_short(text: Seq<char>, max: nat)
    ensures
        (forall|i: int| 0 <= i < words(text).len() ==> #[trigger] words(text)[i].len() <= max)
            ==> words(join_spaces(text_chunks(text, max))) == words(text),
{
    if forall|i: int| 0 <= i < words(text).len() ==> #[trigger] words(text)[i].len() <= max {
        lemma_chunks_keep_words(text, max);
    }
}

/// Every chunk of `text` is non-empty and at most `max` characters long.
pub proof fn lemma_chunks_within_limit(text: Seq<char>, max: nat)
    requires
        max > 0,
    ensures
        all_within(text_chunks(text, max), max),
{
    lemma_chunks(text, max);
}

/// The chunks hold exactly the non-whitespace characters of `text`, in order:
/// chunking drops or reorders nothing but whitespace.
pub proof fn lemma_chunks_keep_text(text: Seq<char>, max: nat)
    requires
        max > 0,
    ensures
        non_space(concat_all(text_chunks(text, max))) == non_space(text),
{
    lemma_chunks(text, max);
}

proof fn lemma_chunks(text: Seq<char>, max: nat)
    requires
        max > 0,
    ensures
        all_within(text_chunks(text, max), max),
        non_space(concat_all(text_chunks(text, max))) == non_space(text),
{
    let ss = sentences(trim(text));
    lemma_sentences(trim(text));
    lemma_non_space_trim(text);
    assert forall|i: int| 0 <= i < ss.len() && #[trigger] ss[i].len() > max implies all_within(
        word_splitter(max)(ss[i]),
        max,
    ) && non_space(concat_all(word_splitter(max)(ss[i]))) == non_space(ss[i]) by {
        lemma_word_chunks(ss[i], max);
    }
    lemma_pack(ss, max, word_splitter(max));
}

/// The length of the pieces joined by single spaces.
pub open spec fn joined_len(pieces: Seq<Seq<char>>) -> int
    decreases pieces.len(),
{
    if pieces.len() == 0 {
        0
    } else if pieces.len() == 1 {
        pieces[0].len() as int
    } else {
        joined_len(pieces.drop_last()) + 1 + pieces.last().len()
    }
}

proof fn lemma_joined_len_push_nonempty(acc: Seq<Seq<char>>, piece: Seq<char>)
    ensures
        joined_len(push_nonempty(acc, piece)) == if piece.len() == 0 {
            joined_len(acc)
        } else if acc.len() == 0 {
            piece.len() as int
        } else {
            joined_len(acc) + 1 + piece.len()
        },
{
    if piece.len() > 0 {
        assert(acc.push(piece).drop_last() =~= acc);
    }
}

proof fn lemma_joined_sentences_scan(s: Seq<char>, n: nat)
    requires
        n <= s.len(),
    ensures
        sentence_scan(s, n).1.len() <= n,
        n > 0 && sentence_scan(s, n).1.len() == 0 ==> ends_sentence(s, n - 1),
        sentence_scan(s, n).0.len() > 0 ==> joined_len(sentence_scan(s, n).0) + sentence_scan(
            s,
            n,
        ).1.len() <= n,
        sentence_scan(s, n).0.len() > 0 && sentence_scan(s, n).1.len() > 0 ==> is_white_space(
            sentence_scan(s, n).1[0],
        ),
    decreases n,
{
    if n > 0 {
        let prev = sentence_scan(s, (n - 1) as nat);
        lemma_joined_sentences_scan(s, (n - 1) as nat);
        let cur = prev.1.push(s[n - 1]);
        if prev.1.len() == 0 && prev.0.len() > 0 {
            assert(n - 1 > 0);
            assert(ends_sentence(s, n - 2));
            assert(is_white_space(s[n - 1]));
        }
        if ends_sentence(s, n - 1) {
            lemma_joined_len_push_nonempty(prev.0, trim(cur));
            lemma_trim_edges(cur);
            if trim(cur).len() > 0 && prev.0.len() > 0 {
                lemma_trim_start_is_suffix(cur);
                lemma_trim_end_is_prefix(trim_start(cur));
                assert(cur[0] == prev.1.push(s[n - 1])[0]);
                assert(is_white_space(cur[0]));
                assert(trim_start(cur) == trim_start(cur.drop_first()));
                lemma_trim_start_is_suffix(cur.drop_first());
            }
        }
    }
}

proof fn lemma_joined_sentences(s: Seq<char>)
    ensures
        joined_len(sentences(s)) <= s.len(),
{
    let st = sentence_scan(s, s.len());
    lemma_joined_sentences_scan(s, s.len());
    lemma_joined_len_push_nonempty(st.0, trim(st.1));
    lemma_trim_edges(st.1);
    if trim(st.1).len() > 0 && st.0.len() > 0 {
        lemma_trim_start_is_suffix(st.1);
        lemma_trim_end_is_prefix(trim_start(st.1));
        assert(trim_start(st.1) == trim_start(st.1.drop_first()));
        lemma_trim_start_is_suffix(st.1.drop_first());
    }
}

proof fn lemma_pack_fits(
    pieces: Seq<Seq<char>>,
    n: nat,
    max: nat,
    split: spec_fn(Seq<char>) -> Seq<Seq<char>>,
)
    requires
        n <= pieces.len(),
        forall|i: int| 0 <= i < pieces.len() ==> #[trigger] pieces[i].len() > 0,
        joined_len(pieces) <= max,
    ensures
        pack_scan(pieces, n, max, split).0.len() == 0,
        pack_scan(pieces, n, max, split).1.len() == joined_len(pieces.take(n as int)),
        joined_len(pieces.take(n as int)) <= joined_len(pieces),
    decreases n,
{
    if n > 0 {
        lemma_pack_fits(pieces, (n - 1) as nat, max, split);
        assert(pieces.take(n as int).drop_last() =~= pieces.take(n - 1));
        assert(pieces.take(n as int).last() == pieces[n - 1]);
        lemma_joined_len_prefix(pieces, n);
        if n >= 2 {
            let pre = pieces.take(n - 1);
            assert(pre.last() == pieces[n - 2]);
            if pre.len() > 1 {
                lemma_joined_len_nonneg(pre.drop_last());
            }
            assert(joined_len(pre) > 0);
        } else {
            assert(pieces.take(0) =~= Seq::<Seq<char>>::empty());
        }
    } else {
        assert(pieces.take(0) =~= Seq::<Seq<char>>::empty());
        lemma_joined_len_prefix(pieces, 0);
    }
}

proof fn lemma_joined_len_prefix(pieces: Seq<Seq<char>>, n: nat)
    requires
        n <= pieces.len(),
    ensures
        joined_len(pieces.take(n as int)) <= joined_len(pieces),
    decreases pieces.len() - n,
{
    if n < pieces.len() {
        lemma_joined_len_prefix(pieces, n + 1);
        assert(pieces.take((n + 1) as int).drop_last() =~= pieces.take(n as int));
        lemma_joined_len_nonneg(pieces.take(n as int));
    } else {
        assert(pieces.take(n as int) =~= pieces);
    }
}

proof fn lemma_joined_len_nonneg(pieces: Seq<Seq<char>>)
    ensures
        joined_len(pieces) >= 0,
    decreases pieces.len(),
{
    if pieces.len() > 1 {
        lemma_joined_len_nonneg(pieces.drop_last());
    }
}

/// A text whose trimmed form is non-empty and fits in the limit stays one
/// chunk.
pub proof fn lemma_short_text_single_chunk(text: Seq<char>, max: nat)
    requires
        0 < trim(text).len() <= max,
    ensures
        text_chunks(text, max).len() == 1,
{
    let t = trim(text);
    let ss = sentences(t);
    lemma_sentences(t);
    lemma_joined_sentences(t);
    lemma_pack_fits(ss, ss.len(), max, word_splitter(max));
    assert(ss.take(ss.len() as int) =~= ss);
    lemma_trim_edges(text);
    assert(non_space(t).len() > 0) by {
        lemma_non_space_last(t);
    }
    if ss.len() == 0 {
        assert(concat_all(ss) =~= Seq::<char>::empty());
        assert(non_space(Seq::<char>::empty()) =~= Seq::<char>::empty());
    }
    assert(joined_len(ss) > 0) by {
        if ss.len() > 1 {
            lemma_joined_len_nonneg(ss.drop_last());
        }
    }
}

proof fn lemma_non_space_last(s: Seq<char>)
    requires
        s.len() > 0,
        !is_white_space(s.last()),
    ensures
        non_space(s).len() > 0,
{
}

fn push_piece(out: &mut Vec<Vec<char>>, piece: Vec<char>)
    ensures
        char_views(final(out)@) == char_views(old(out)@).push(piece@),
{
    out.push(piece);
    assert(char_views(out@) =~= char_views(old(out)@).push(piece@));
}

fn append_pieces(out: &mut Vec<Vec<char>>, more: Vec<Vec<char>>)
    ensures
        char_views(final(out)@) == char_views(old(out)@) + char_views(more@),
{
    let mut more = more;
    let ghost m = more@;
    out.append(&mut more);
    assert(char_views(out@) =~= char_views(old(out)@) + char_views(m));
}

fn append_chars(cur: &mut Vec<char>, piece: &Vec<char>)
    ensures
        final(cur)@ == old(cur)@ + piece@,
{
    let mut i: usize = 0;
    while i < piece.len()
        invariant
            i <= piece.len(),
            cur@ == old(cur)@ + piece@.take(i as int),
        decreases piece.len() - i,
    {
        cur.push(piece[i]);
        assert(old(cur)@ + piece@.take(i as int) + seq![piece@[i as int]] =~= old(cur)@
            + piece@.take(i + 1));
        i += 1;
    }
    assert(piece@.take(piece.len() as int) =~= piece@);
}

/// Splits on `.`/`!`/`?` followed by whitespace (or end of text), keeping the
/// terminating punctuation attached to its sentence.
fn split_sentences(text: &Vec<char>) -> (r: Vec<Vec<char>>)
    ensures
        char_views(r@) == sentences(text@),
{
    let mut done: Vec<Vec<char>> = Vec::new();
    let mut current: Vec<char> = Vec::new();
    let mut i: usize = 0;
    while i < text.len()
        invariant
            i <= text.len(),
            sentence_scan(text@, i as nat) == (char_views(done@), current@),
        decreases text.len() - i,
    {
        let c = text[i];
        current.push(c);
        let ends = (c == '.' || c == '!' || c == '?') && (i + 1 >= text.len() || is_whitespace(
            text[i + 1],
        ));
        if ends {
            let t = trim_chars(current.as_slice());
            if t.len() > 0 {
                push_piece(&mut done, t);
            }
            current = Vec::new();
        }
        i += 1;
    }
    let t = trim_chars(current.as_slice());
    if t.len() > 0 {
        push_piece(&mut done, t);
    }
    done
}

/// The whitespace-separated words of `s`.
fn split_words(s: &Vec<char>) -> (r: Vec<Vec<char>>)
    ensures
        char_views(r@) == words(s@),
{
    let mut done: Vec<Vec<char>> = Vec::new();
    let mut current: Vec<char> = Vec::new();
    let mut i: usize = 0;
    while i < s.len()
        invariant
            i <= s.len(),
            word_scan(s@, i as nat) == (char_views(done@), current@),
        decreases s.len() - i,
    {
        let c = s[i];
        if is_whitespace(c) {
            if current.len() > 0 {
                push_piece(&mut done, current);
            }
            current = Vec::new();
        } else {
            current.push(c);
        }
        i += 1;
    }
    if current.len() > 0 {
        push_piece(&mut done, current);
    }
    done
}

/// Last-resort hard split for single words longer than `max_len` (e.g. URLs).
fn split_by_chars(word: &Vec<char>, max_len: usize) -> (r: Vec<Vec<char>>)
    requires
        max_len > 0,
    ensures
        char_views(r@) == char_pieces(word@, max_len as nat),
{
    let mut out: Vec<Vec<char>> = Vec::new();
    let mut i: usize = 0;
    assert(word@.skip(0) =~= word@);
    while i < word.len()
        invariant
            max_len > 0,
            i <= word.len(),
            char_views(out@) + char_pieces(word@.skip(i as int), max_len as nat) == char_pieces(
                word@,
                max_len as nat,
            ),
        decreases word.len() - i,
    {
        let rest = word.len() - i;
        let end = if rest <= max_len {
            word.len()
        } else {
            i + max_len
        };
        let mut piece: Vec<char> = Vec::new();
        let mut k: usize = i;
        while k < end
            invariant
                i <= k <= end <= word.len(),
                piece@ == word@.subrange(i as int, k as int),
            decreases end - k,
        {
            piece.push(word[k]);
            assert(word@.subrange(i as int, k as int).push(word@[k as int]) =~= word@.subrange(
                i as int,
                k + 1,
            ));
            k += 1;
        }
        let ghost tail = word@.skip(i as int);
        proof {
            if rest <= max_len {
                assert(piece@ =~= tail);
                assert(word@.skip(end as int) =~= Seq::<char>::empty());
                assert(char_pieces(tail, max_len as nat) == seq![tail]);
            } else {
                assert(piece@ =~= tail.take(max_len as int));
                assert(tail.skip(max_len as int) =~= word@.skip(end as int));
            }
        }
        let ghost before = char_views(out@);
        push_piece(&mut out, piece);
        proof {
            assert(char_pieces(word@.skip(end as int), max_len as nat) =~= Seq::<
                Seq<char>,
            >::empty() || rest > max_len);
            assert(before.push(piece@) + char_pieces(word@.skip(end as int), max_len as nat)
                =~= before + char_pieces(tail, max_len as nat));
        }
        i = end;
    }
    assert(word@.skip(word.len() as int) =~= Seq::<char>::empty());
    assert(char_views(out@) + Seq::<Seq<char>>::empty() =~= char_views(out@));
    out
}

/// Whether `piece` fits beside the open chunk `current` within `max_len`.
fn fits_beside(current: &Vec<char>, piece: &Vec<char>, max_len: usize) -> (r: bool)
    ensures
        r == (join_with_space(current@, piece@).len() <= max_len),
{
    let sep: u128 = if current.len() == 0 {
        0
    } else {
        1
    };
    (current.len() as u128) + sep + (piece.len() as u128) <= max_len as u128
}

/// Greedily packs whitespace-separated words into chunks no longer than
/// `max_len`, for sentences that exceed the limit on their own.
fn split_by_words(sentence: &Vec<char>, max_len: usize) -> (r: Vec<Vec<char>>)
    requires
        max_len > 0,
    ensures
        char_views(r@) == word_chunks(sentence@, max_len as nat),
{
    let ghost max = max_len as nat;
    let word_list = split_words(sentence);
    let ghost pieces = char_views(word_list@);
    let mut chunks: Vec<Vec<char>> = Vec::new();
    let mut current: Vec<char> = Vec::new();
    let mut k: usize = 0;
    while k < word_list.len()
        invariant
            max_len > 0,
            max == max_len as nat,
            k <= word_list.len(),
            pieces == char_views(word_list@),
            pieces == words(sentence@),
            pack_scan(pieces, k as nat, max, char_splitter(max)) == (
                char_views(chunks@),
                current@,
            ),
        decreases word_list.len() - k,
    {
        let word = &word_list[k];
        assert(pieces[k as int] == word@);
        if word.len() > max_len {
            if current.len() > 0 {
                push_piece(&mut chunks, current);
            }
            current = Vec::new();
            let sub = split_by_chars(word, max_len);
            append_pieces(&mut chunks, sub);
        } else {
            if !fits_beside(&current, word, max_len) {
                push_piece(&mut chunks, current);
                current = Vec::new();
            }
            if current.len() > 0 {
                current.push(' ');
            }
            append_chars(&mut current, word);
        }
        k += 1;
    }
    if current.len() > 0 {
        push_piece(&mut chunks, current);
    }
    chunks
}

/// Splits `text` into pieces no longer than `max_len` characters so each one
/// fits within Orpheus's per-request limit, preferring sentence boundaries
/// (then word, then raw character boundaries) so speech doesn't fragment
/// mid-thought any more than it has to.
pub fn chunk_text(text: &str, max_len: usize) -> (chunks: Vec<String>)
    requires
        max_len > 0 || trim(text@).len() == 0,
    ensures
        string_views(chunks@) == text_chunks(text@, max_len as nat),
        all_within(string_views(chunks@), max_len as nat),
        non_space(concat_all(string_views(chunks@))) == non_space(text@),
        trim(text@).len() == 0 <==> chunks.len() == 0,
        0 < trim(text@).len() <= max_len ==> chunks.len() == 1,
        (forall|i: int| 0 <= i < words(text@).len() ==> #[trigger] words(text@)[i].len() <= max_len)
            ==> words(join_spaces(string_views(chunks@))) == words(text@),
{
    let ghost max = max_len as nat;
    let chars = chars_of(text);
    let trimmed = trim_chars(chars.as_slice());
    if trimmed.len() == 0 {
        let empty: Vec<String> = Vec::new();
        proof {
            assert(sentences(trimmed@) =~= Seq::<Seq<char>>::empty());
            assert(string_views(empty@) =~= text_chunks(text@, max));
            lemma_non_space_trim(text@);
            assert(trim(text@) =~= Seq::<char>::empty());
            assert(concat_all(string_views(empty@)) =~= Seq::<char>::empty());
            assert(non_space(Seq::<char>::empty()) =~= Seq::<char>::empty());
        }
        proof {
            lemma_chunks_keep_words_if_short(text@, max);
        }
        return empty;
    }
    let sentence_list = split_sentences(&trimmed);
    let ghost pieces = char_views(sentence_list@);
    let mut out: Vec<Vec<char>> = Vec::new();
    let mut current: Vec<char> = Vec::new();
    let mut k: usize = 0;
    while k < sentence_list.len()
        invariant
            max_len > 0,
            max == max_len as nat,
            k <= sentence_list.len(),
            pieces == char_views(sentence_list@),
            pieces == sentences(trim(text@)),
            pack_scan(pieces, k as nat, max, word_splitter(max)) == (char_views(out@), current@),
        decreases sentence_list.len() - k,
    {
        let sentence = &sentence_list[k];
        assert(pieces[k as int] == sentence@);
        if sentence.len() > max_len {
            if current.len() > 0 {
                push_piece(&mut out, current);
            }
            current = Vec::new();
            let sub = split_by_words(sentence, max_len);
            append_pieces(&mut out, sub);
        } else {
            if !fits_beside(&current, sentence, max_len) {
                push_piece(&mut out, current);
                current = Vec::new();
            }
            if current.len() > 0 {
                current.push(' ');
            }
            append_chars(&mut current, sentence);
        }
        k += 1;
    }
    if current.len() > 0 {
        push_piece(&mut out, current);
    }
    let mut chunks: Vec<String> = Vec::new();
    let mut i: usize = 0;
    while i < out.len()
        invariant
            i <= out.len(),
            string_views(chunks@) == char_views(out@).take(i as int),
        decreases out.len() - i,
    {
        let s = string_of(out[i].as_slice());
        let ghost before = chunks@;
        chunks.push(s);
        assert(chunks@ == before.push(s));
        assert(char_views(out@)[i as int] == out@[i as int]@);
        assert(string_views(chunks@) =~= string_views(before).push(s@));
        assert(string_views(chunks@) =~= char_views(out@).take(i + 1));
        i += 1;
    }
    assert(char_views(out@).take(out.len() as int) =~= char_views(out@));
    proof {
        lemma_chunks_keep_words_if_short(text@, max);
        lemma_chunks(text@, max);
        if trim(text@).len() <= max {
            lemma_short_text_single_chunk(text@, max);
        }
        if chunks.len() == 0 {
            lemma_non_space_trim(text@);
            lemma_trim_edges(text@);
            lemma_non_space_last(trim(text@));
            assert(concat_all(string_views(chunks@)) =~= Seq::<char>::empty());
            assert(non_space(Seq::<char>::empty()) =~= Seq::<char>::empty());
        }
    }
    chunks
}

} // verus!
