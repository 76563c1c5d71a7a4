//! What holds of lines, words and joined text.
use crate::lines::flat;
use crate::lines::joined;
use crate::lines::lines_of;
use crate::lines::word_state;
use crate::lines::words_of;
use crate::text::is_white;
use crate::text::lemma_index_of_is;
use vstd::prelude::*;

verus! {

/// The first line of a text ends at its first newline, and the rest is split by itself.
pub proof fn law_first_line(line: Seq<char>, rest: Seq<char>)
    requires
        !line.contains('\n'),
        line.len() == 0 || line.last() != '\r',
    ensures
        lines_of(line.push('\n') + rest) == seq![line] + lines_of(rest),
{
    let s = line.push('\n') + rest;
    let n = line.len() as int;
    assert forall|k: int| 0 <= k < n implies s[k] != '\n' by {
        assert(s[k] == line[k]);
        assert(line.contains(line[k]));
    }
    lemma_index_of_is(s, '\n', n);
    assert(s.take(n) =~= line);
    assert(s.skip(n + 1) =~= rest);
}

/// A text without a newline is one line, and an empty one is none.
pub proof fn law_last_line(line: Seq<char>)
    requires
        !line.contains('\n'),
    ensures
        line.len() > 0 ==> lines_of(line) == seq![line],
        line.len() == 0 ==> lines_of(line).len() == 0,
{
    crate::text::lemma_index_of(line, '\n');
}

spec fn all_of(done: Seq<Seq<char>>, word: Seq<char>) -> Seq<char> {
    flat(done) + word
}

proof fn lemma_flat_one_more(l: Seq<Seq<char>>, x: Seq<char>)
    ensures
        flat(l.push(x)) == flat(l) + x,
{
    crate::commands::bibtex_fields::lemma_flat_push(l, x);
}

proof fn lemma_words(s: Seq<char>)
    ensures
        ({
            let (done, word) = word_state(s);
            &&& all_of(done, word) == s.filter(|c: char| !is_white(c))
            &&& forall|i: int| 0 <= i < done.len() ==> (#[trigger] done[i]).len() > 0
        }),
    decreases s.len(),
{
    reveal(Seq::filter);
    if s.len() > 0 {
        let t = s.drop_last();
        lemma_words(t);
        let (done, word) = word_state(t);
        if !is_white(s.last()) {
            assert(flat(done) + word.push(s.last()) =~= (flat(done) + word).push(s.last()));
        } else if word.len() > 0 {
            lemma_flat_one_more(done, word);
            assert(flat(done.push(word)) + Seq::<char>::empty() =~= flat(done) + word);
        }
    } else {
        assert(flat(Seq::<Seq<char>>::empty()) + Seq::<char>::empty() =~= Seq::empty());
        assert(s.filter(|c: char| !is_white(c)) =~= Seq::empty());
    }
}

/// Splitting into words loses whitespace and nothing else, and no word is empty.
pub proof fn law_words_keep_every_character(s: Seq<char>)
    ensures
        flat(words_of(s)) == s.filter(|c: char| !is_white(c)),
        forall|i: int| 0 <= i < words_of(s).len() ==> (#[trigger] words_of(s)[i]).len() > 0,
{
    lemma_words(s);
    let (done, word) = word_state(s);
    if word.len() > 0 {
        lemma_flat_one_more(done, word);
    } else {
        assert(flat(done) + word =~= flat(done));
    }
}

/// Joining puts the separator between two neighbours, once, and nowhere else.
pub proof fn law_joined_parts(parts: Seq<Seq<char>>, sep: Seq<char>, x: Seq<char>)
    ensures
        joined(Seq::empty(), sep) == Seq::<char>::empty(),
        joined(seq![x], sep) == x,
        parts.len() > 0 ==> joined(parts.push(x), sep) == joined(parts, sep) + sep + x,
{
    assert(parts.push(x).drop_last() =~= parts);
}

} // verus!
