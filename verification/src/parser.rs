//! The paste-in text format: one word per line, the english form, a space,
//! the chinese form.

use vstd::prelude::*;
use vstd::string::*;
use crate::model::{words_view, Word, WordView};
use crate::text::{
    find_char, first_index_of, is_first_index_of, is_whitespace, lemma_first_index,
    lemma_first_index_of, lemma_trim, lemma_trim_of_trimmed, to_chars, trim, trim_bounds,
    trim_from, trim_to,
};

verus! {

/// No more than this many lines of a pasted text are read.
pub const MAX_LINES: usize = 100;

/// The lines of `text`: the pieces between line feeds. A line feed at the
/// very end does not start another line.
pub open spec fn split_lines(text: Seq<char>) -> Seq<Seq<char>>
    decreases text.len(),
{
    let n = first_index_of(text, '\n');
    if text.len() == 0 {
        Seq::empty()
    } else if n < 0 || n >= text.len() {
        seq![text]
    } else {
        seq![text.subrange(0, n)] + split_lines(text.subrange(n + 1, text.len() as int))
    }
}

/// The word that one line holds, if it holds one. The line is trimmed and
/// cut at its first space; what stands before the space, trimmed, is the
/// english form, what stands after it, trimmed, the chinese form. A line
/// without a space, or with an empty form, holds no word.
pub open spec fn parse_line(line: Seq<char>, group: Seq<char>) -> Option<WordView> {
    let t = trim(line);
    let p = first_index_of(t, ' ');
    if 0 <= p < t.len() {
        let english = trim(t.subrange(0, p));
        let chinese = trim(t.subrange(p + 1, t.len() as int));
        if english.len() > 0 && chinese.len() > 0 {
            Some(WordView { english: english, chinese: chinese, group: group })
        } else {
            None
        }
    } else {
        None
    }
}

/// The words that `lines` hold, in order.
pub open spec fn parse_lines(lines: Seq<Seq<char>>, group: Seq<char>) -> Seq<WordView>
    decreases lines.len(),
{
    if lines.len() == 0 {
        Seq::empty()
    } else {
        let before = parse_lines(lines.drop_last(), group);
        match parse_line(lines.last(), group) {
            Some(word) => before.push(word),
            None => before,
        }
    }
}

/// The lines of `text` that are read: the first `MAX_LINES` of them.
pub open spec fn lines_read(text: Seq<char>) -> Seq<Seq<char>> {
    let lines = split_lines(text);
    if lines.len() > MAX_LINES {
        lines.take(MAX_LINES as int)
    } else {
        lines
    }
}

/// The words that a pasted text holds for group `group`.
pub open spec fn parse_text(text: Seq<char>, group: Seq<char>) -> Seq<WordView> {
    parse_lines(lines_read(text), group)
}

/// Whether a pasted text has more lines than are read.
pub open spec fn text_truncated(text: Seq<char>) -> bool {
    split_lines(text).len() > MAX_LINES
}

/// The line that shows `word` in an editable text: the english form, a
/// space, the chinese form.
pub open spec fn word_line(word: WordView) -> Seq<char> {
    word.english + seq![' '] + word.chinese
}

/// The editable text of `words`: one line each, with a line feed between
/// two lines.
pub open spec fn words_text(words: Seq<WordView>) -> Seq<char>
    decreases words.len(),
{
    if words.len() == 0 {
        Seq::empty()
    } else if words.len() == 1 {
        word_line(words[0])
    } else {
        words_text(words.drop_last()) + seq!['\n'] + word_line(words.last())
    }
}

/// The words of a table that its editable text shows: the first
/// `MAX_LINES` of them.
pub open spec fn words_shown(words: Seq<WordView>) -> Seq<WordView> {
    if words.len() > MAX_LINES {
        words.take(MAX_LINES as int)
    } else {
        words
    }
}

/// The lines of a text are the line that its first line feed ends, then
/// the lines of what follows.
proof fn lemma_split_step(text: Seq<char>, pos: int, end: int)
    requires
        0 <= pos <= end <= text.len(),
        pos < text.len(),
        end - pos == first_index_of(text.subrange(pos, text.len() as int), '\n'),
    ensures
        split_lines(text.subrange(pos, text.len() as int)) == seq![text.subrange(pos, end)]
            + split_lines(
            if end < text.len() {
                text.subrange(end + 1, text.len() as int)
            } else {
                Seq::empty()
            },
        ),
{
    let rest = text.subrange(pos, text.len() as int);
    let n = end - pos;
    if end < text.len() {
        assert(rest.subrange(0, n) =~= text.subrange(pos, end));
        assert(rest.subrange(n + 1, rest.len() as int) =~= text.subrange(
            end + 1,
            text.len() as int,
        ));
    } else {
        assert(rest =~= text.subrange(pos, end));
        assert(split_lines(Seq::<char>::empty()) =~= Seq::<Seq<char>>::empty());
        assert(seq![rest] + Seq::<Seq<char>>::empty() =~= seq![rest]);
    }
}

/// Reads the word of the line `chars[from..to]` of `text`.
fn parse_line_at(text: &str, chars: &Vec<char>, from: usize, to: usize, group: &str) -> (word:
    Option<Word>)
    requires
        chars@ == text@,
        from <= to <= chars@.len(),
    ensures
        match word {
            Some(w) => parse_line(text@.subrange(from as int, to as int), group@) == Some(w@),
            None => parse_line(text@.subrange(from as int, to as int), group@) is None,
        },
{
    let (a, b) = trim_bounds(chars, from, to);
    let p = find_char(chars, a, b, ' ');
    if p < b {
        let ghost t = chars@.subrange(a as int, b as int);
        let (ea, eb) = trim_bounds(chars, a, p);
        let (ca, cb) = trim_bounds(chars, p + 1, b);
        proof {
            assert(t.subrange(0, p - a) =~= chars@.subrange(a as int, p as int));
            assert(t.subrange(p - a + 1, t.len() as int) =~= chars@.subrange(p + 1, b as int));
        }
        if ea < eb && ca < cb {
            let english = String::from_str(text.substring_char(ea, eb));
            let chinese = String::from_str(text.substring_char(ca, cb));
            Some(Word { english, chinese, group: String::from_str(group) })
        } else {
            None
        }
    } else {
        None
    }
}

/// Reads the words of a pasted text for group `group`: one word from each
/// of the first `MAX_LINES` lines that holds one. Lines that hold none are
/// passed over.
pub fn parse_words_from_text(text: &str, group: &str) -> (words: Vec<Word>)
    ensures
        words_view(words@) == parse_text(text@, group@),
{
    let chars = to_chars(text);
    let len = chars.len();
    let mut words: Vec<Word> = Vec::new();
    let mut pos: usize = 0;
    let mut count: usize = 0;
    let ghost mut done: Seq<Seq<char>> = Seq::empty();
    assert(text@.subrange(0, len as int) =~= text@);
    assert(words_view(words@) =~= Seq::empty());
    while pos < len && count < MAX_LINES
        invariant
            chars@ == text@,
            len == chars@.len(),
            pos <= len,
            count <= MAX_LINES,
            done.len() == count,
            split_lines(text@) == done + split_lines(text@.subrange(pos as int, len as int)),
            words_view(words@) == parse_lines(done, group@),
        decreases len - pos,
    {
        let end = find_char(&chars, pos, len, '\n');
        let word = parse_line_at(text, &chars, pos, end, group);
        proof {
            lemma_split_step(text@, pos as int, end as int);
            let line = text@.subrange(pos as int, end as int);
            let rest = if end < len {
                text@.subrange(end + 1, len as int)
            } else {
                Seq::empty()
            };
            assert(done + (seq![line] + split_lines(rest)) =~= done.push(line) + split_lines(
                rest,
            ));
            assert(done.push(line).drop_last() =~= done);
            if end >= len {
                assert(text@.subrange(len as int, len as int) =~= Seq::<char>::empty());
            }
        }
        let ghost before = words@;
        match word {
            Some(w) => {
                words.push(w);
                assert(words_view(words@) =~= words_view(before).push(w@));
            },
            None => {},
        }
        proof {
            done = done.push(text@.subrange(pos as int, end as int));
        }
        pos = if end < len {
            end + 1
        } else {
            end
        };
        count += 1;
    }
    proof {
        let rest = split_lines(text@.subrange(pos as int, len as int));
        if pos >= len {
            assert(text@.subrange(pos as int, len as int).len() == 0);
            assert(done + rest =~= done);
        } else {
            assert((done + rest).take(MAX_LINES as int) =~= done);
            lemma_split_nonempty(text@.subrange(pos as int, len as int));
        }
    }
    words
}

/// Writes the editable text of `words`: a line for each of the first
/// `MAX_LINES` words.
pub fn words_to_text(words: &Vec<Word>) -> (text: String)
    ensures
        text@ == words_text(words_shown(words_view(words@))),
{
    let shown = if words.len() > MAX_LINES {
        MAX_LINES
    } else {
        words.len()
    };
    let ghost all = words_shown(words_view(words@));
    let mut text = String::new();
    let mut i: usize = 0;
    while i < shown
        invariant
            i <= shown <= words@.len(),
            all == words_shown(words_view(words@)),
            all.len() == shown,
            text@ == words_text(all.take(i as int)),
        decreases shown - i,
    {
        proof {
            reveal_strlit(" ");
            reveal_strlit("\n");
            assert(all.take(i + 1).drop_last() =~= all.take(i as int));
            assert(all.take(i + 1).last() == words@[i as int]@);
        }
        if i > 0 {
            text.append("\n");
        }
        text.append(words[i].english.as_str());
        text.append(" ");
        text.append(words[i].chinese.as_str());
        proof {
            let w = words@[i as int]@;
            let before = words_text(all.take(i as int));
            if i > 0 {
                assert(text@ =~= before + seq!['\n'] + word_line(w));
            } else {
                assert(before =~= Seq::<char>::empty());
                assert(text@ =~= word_line(w));
            }
        }
        i += 1;
    }
    assert(all.take(shown as int) =~= all);
    text
}

/// A line holds a word exactly when, trimmed, it has a space in it. The
/// word's english form is what stands before the first space, its chinese
/// form what stands after it, each trimmed: neither is empty, neither
/// begins or ends with white space, and the english form has no space in
/// it. The word carries the group that the line was read for.
pub proof fn lemma_parse_line(line: Seq<char>, group: Seq<char>)
    ensures
        parse_line(line, group) is Some <==> trim(line).contains(' '),
        match parse_line(line, group) {
            Some(word) => {
                let t = trim(line);
                let p = first_index_of(t, ' ');
                &&& 0 < p < t.len() - 1
                &&& word.english == trim(t.subrange(0, p))
                &&& word.chinese == trim(t.subrange(p + 1, t.len() as int))
                &&& word.group == group
                &&& word.english.len() > 0
                &&& word.chinese.len() > 0
                &&& !word.english.contains(' ')
                &&& !is_whitespace(word.english[0]) && !is_whitespace(word.english.last())
                &&& !is_whitespace(word.chinese[0]) && !is_whitespace(word.chinese.last())
            },
            None => true,
        },
{
    let t = trim(line);
    let p = first_index_of(t, ' ');
    lemma_trim(line);
    lemma_first_index(t, ' ');
    assert(is_whitespace(' '));
    if 0 <= p < t.len() {
        assert(t[p] == ' ');
        assert(p != 0 && p != t.len() - 1);
        let before = t.subrange(0, p);
        let after = t.subrange(p + 1, t.len() as int);
        lemma_trim(before);
        lemma_trim(after);
        assert(before[0] == t[0]);
        assert(after.last() == t.last());
        if trim_from(before) > 0 {
            assert(is_whitespace(before[0]));
        }
        if trim_to(before) <= 0 {
            assert(is_whitespace(before[0]));
        }
        if trim_to(after) < after.len() {
            assert(is_whitespace(after[after.len() - 1]));
        }
        if trim_from(after) >= after.len() {
            assert(is_whitespace(after[after.len() - 1]));
        }
        let english = trim(before);
        if english.contains(' ') {
            let i = choose|i: int| 0 <= i < english.len() && english[i] == ' ';
            assert(english[i] == t[trim_from(before) + i]);
        }
    }
}

/// A word that its line gives back as it is: its forms are not empty, do
/// not begin or end with white space and hold no line feed, its english
/// form holds no space, and it carries the group `group`.
pub open spec fn plain_word(word: WordView, group: Seq<char>) -> bool {
    &&& word.group == group
    &&& word.english.len() > 0
    &&& word.chinese.len() > 0
    &&& !word.english.contains(' ')
    &&& !word.english.contains('\n')
    &&& !word.chinese.contains('\n')
    &&& !is_whitespace(word.english[0]) && !is_whitespace(word.english.last())
    &&& !is_whitespace(word.chinese[0]) && !is_whitespace(word.chinese.last())
}

/// The lines of `words`, in order.
pub open spec fn word_lines(words: Seq<WordView>) -> Seq<Seq<char>> {
    Seq::new(words.len(), |i: int| word_line(words[i]))
}

/// The line of a plain word holds no line feed and gives the word back.
pub proof fn lemma_word_line_reads_back(word: WordView, group: Seq<char>)
    requires
        plain_word(word, group),
    ensures
        word_line(word).len() > 0,
        !word_line(word).contains('\n'),
        parse_line(word_line(word), group) == Some(word),
{
    let line = word_line(word);
    let n = word.english.len() as int;
    assert(line.len() == n + 1 + word.chinese.len());
    assert(forall|i: int| 0 <= i < n ==> line[i] == word.english[i]);
    assert(line[n] == ' ');
    assert(forall|i: int| n < i < line.len() ==> line[i] == word.chinese[i - n - 1]);
    if line.contains('\n') {
        let i = choose|i: int| 0 <= i < line.len() && line[i] == '\n';
        if i < n {
            assert(word.english.contains('\n'));
        } else if i > n {
            assert(word.chinese[i - n - 1] == '\n');
            assert(word.chinese.contains('\n'));
        }
    }
    assert(line[0] == word.english[0]);
    assert(line.last() == word.chinese.last());
    lemma_trim_of_trimmed(line);
    assert(is_first_index_of(line, ' ', n)) by {
        assert forall|i: int| 0 <= i < n implies line[i] != ' ' by {
            if line[i] == ' ' {
                assert(word.english.contains(' '));
            }
        }
    }
    lemma_first_index_of(line, ' ', n);
    assert(line.subrange(0, n) =~= word.english);
    assert(line.subrange(n + 1, line.len() as int) =~= word.chinese);
    lemma_trim_of_trimmed(word.english);
    lemma_trim_of_trimmed(word.chinese);
}

/// The editable text of words is the line of the first word, then, where
/// more words follow, a line feed and their text.
proof fn lemma_words_text_front(words: Seq<WordView>)
    requires
        words.len() > 0,
    ensures
        words_text(words) == if words.len() == 1 {
            word_line(words[0])
        } else {
            word_line(words[0]) + seq!['\n'] + words_text(words.drop_first())
        },
    decreases words.len(),
{
    let nl = seq!['\n'];
    let first = word_line(words[0]);
    let last = word_line(words.last());
    if words.len() > 2 {
        let init = words.drop_last();
        let tail = words.drop_first();
        let mid = init.drop_first();
        lemma_words_text_front(init);
        assert(init[0] == words[0]);
        assert(tail.last() == words.last());
        assert(tail.drop_last() =~= mid);
        assert(words_text(init) == first + nl + words_text(mid));
        assert(words_text(tail) == words_text(mid) + nl + last);
        assert(words_text(words) == words_text(init) + nl + last);
        assert((first + nl + words_text(mid)) + nl + last =~= first + nl + (words_text(mid) + nl
            + last));
    } else if words.len() == 2 {
        let init = words.drop_last();
        let tail = words.drop_first();
        assert(init.len() == 1 && init[0] == words[0]);
        assert(tail.len() == 1 && tail[0] == words[1]);
        assert(words_text(init) == first);
        assert(words_text(tail) == last);
        assert(words_text(words) == words_text(init) + nl + last);
    }
}

/// The lines of the editable text of plain words are the lines of the
/// words.
proof fn lemma_split_words_text(words: Seq<WordView>, group: Seq<char>)
    requires
        forall|i: int| 0 <= i < words.len() ==> plain_word(#[trigger] words[i], group),
    ensures
        split_lines(words_text(words)) == word_lines(words),
    decreases words.len(),
{
    if words.len() == 0 {
        assert(word_lines(words) =~= Seq::<Seq<char>>::empty());
    } else {
        let first = word_line(words[0]);
        let text = words_text(words);
        lemma_words_text_front(words);
        lemma_word_line_reads_back(words[0], group);
        if words.len() == 1 {
            assert(is_first_index_of(text, '\n', text.len() as int)) by {
                assert forall|i: int| 0 <= i < text.len() implies text[i] != '\n' by {
                    if text[i] == '\n' {
                        assert(text.contains('\n'));
                    }
                }
            }
            lemma_first_index_of(text, '\n', text.len() as int);
            assert(word_lines(words) =~= seq![text]);
        } else {
            let rest = words.drop_first();
            let rest_text = words_text(rest);
            assert forall|i: int| 0 <= i < rest.len() implies plain_word(
                #[trigger] rest[i],
                group,
            ) by {
                assert(rest[i] == words[i + 1]);
            }
            lemma_split_words_text(rest, group);
            let n = first.len() as int;
            assert(text == first + seq!['\n'] + rest_text);
            assert(text[n] == '\n');
            assert(is_first_index_of(text, '\n', n)) by {
                assert forall|i: int| 0 <= i < n implies text[i] != '\n' by {
                    assert(text[i] == first[i]);
                    if first[i] == '\n' {
                        assert(first.contains('\n'));
                    }
                }
            }
            lemma_first_index_of(text, '\n', n);
            assert(text.subrange(0, n) =~= first);
            assert(text.subrange(n + 1, text.len() as int) =~= rest_text);
            assert(seq![first] + word_lines(rest) =~= word_lines(words)) by {
                assert forall|i: int| 0 <= i < words.len() implies (seq![first] + word_lines(
                    rest,
                ))[i] == word_lines(words)[i] by {
                    if i > 0 {
                        assert(rest[i - 1] == words[i]);
                    }
                }
            }
        }
    }
}

/// The lines of plain words give the words back.
proof fn lemma_parse_word_lines(words: Seq<WordView>, group: Seq<char>)
    requires
        forall|i: int| 0 <= i < words.len() ==> plain_word(#[trigger] words[i], group),
    ensures
        parse_lines(word_lines(words), group) == words,
    decreases words.len(),
{
    let lines = word_lines(words);
    if words.len() == 0 {
        assert(parse_lines(lines, group) =~= words);
    } else {
        let init = words.drop_last();
        assert forall|i: int| 0 <= i < init.len() implies plain_word(
            #[trigger] init[i],
            group,
        ) by {
            assert(init[i] == words[i]);
        }
        lemma_parse_word_lines(init, group);
        assert(lines.drop_last() =~= word_lines(init));
        lemma_word_line_reads_back(words.last(), group);
        assert(lines.last() == word_line(words.last()));
        assert(init.push(words.last()) =~= words);
    }
}

/// The text that is offered for editing reads back as the words that it
/// was written for: for no more than `MAX_LINES` plain words of one group,
/// parsing the editable text gives exactly these words, in their order,
/// and nothing is left unread.
pub proof fn lemma_text_reads_back(words: Seq<WordView>, group: Seq<char>)
    requires
        words.len() <= MAX_LINES,
        forall|i: int| 0 <= i < words.len() ==> plain_word(#[trigger] words[i], group),
    ensures
        parse_text(words_text(words_shown(words)), group) == words,
        !text_truncated(words_text(words_shown(words))),
{
    lemma_split_words_text(words, group);
    lemma_parse_word_lines(words, group);
}

/// Lines give at most one word each, in the order of the lines; every
/// word has both forms filled in and carries the group.
pub proof fn lemma_parse_lines(lines: Seq<Seq<char>>, group: Seq<char>)
    ensures
        parse_lines(lines, group).len() <= lines.len(),
        forall|i: int|
            0 <= i < parse_lines(lines, group).len() ==> {
                let word = #[trigger] parse_lines(lines, group)[i];
                word.english.len() > 0 && word.chinese.len() > 0 && word.group == group
            },
    decreases lines.len(),
{
    if lines.len() > 0 {
        lemma_parse_lines(lines.drop_last(), group);
        lemma_parse_line(lines.last(), group);
    }
}

/// Lines that hold a word each give as many words as there are lines, the
/// word of each line in the place of the line.
pub proof fn lemma_parse_full_lines(lines: Seq<Seq<char>>, group: Seq<char>)
    requires
        forall|i: int| 0 <= i < lines.len() ==> parse_line(#[trigger] lines[i], group) is Some,
    ensures
        parse_lines(lines, group).len() == lines.len(),
        forall|i: int|
            0 <= i < lines.len() ==> Some(#[trigger] parse_lines(lines, group)[i]) == parse_line(
                lines[i],
                group,
            ),
    decreases lines.len(),
{
    if lines.len() > 0 {
        let init = lines.drop_last();
        assert forall|i: int| 0 <= i < init.len() implies parse_line(
            #[trigger] init[i],
            group,
        ) is Some by {
            assert(init[i] == lines[i]);
        }
        lemma_parse_full_lines(init, group);
        assert(parse_line(lines[lines.len() - 1], group) is Some);
        assert forall|i: int| 0 <= i < lines.len() implies Some(
            #[trigger] parse_lines(lines, group)[i],
        ) == parse_line(lines[i], group) by {
            if i < init.len() {
                assert(parse_lines(lines, group)[i] == parse_lines(init, group)[i]);
                assert(init[i] == lines[i]);
            }
        }
    }
}

/// A text with more than `MAX_LINES` lines, of which the first `MAX_LINES`
/// hold a word each, gives exactly `MAX_LINES` words: those of its first
/// `MAX_LINES` lines. What follows is not read.
pub proof fn lemma_parse_cap(text: Seq<char>, group: Seq<char>)
    requires
        split_lines(text).len() > MAX_LINES,
        forall|i: int|
            0 <= i < MAX_LINES ==> parse_line(#[trigger] split_lines(text)[i], group) is Some,
    ensures
        text_truncated(text),
        parse_text(text, group).len() == MAX_LINES,
        forall|i: int|
            0 <= i < MAX_LINES ==> Some(#[trigger] parse_text(text, group)[i]) == parse_line(
                split_lines(text)[i],
                group,
            ),
{
    let read = lines_read(text);
    assert forall|i: int| 0 <= i < read.len() implies parse_line(#[trigger] read[i], group)
        is Some by {
        assert(read[i] == split_lines(text)[i]);
    }
    lemma_parse_full_lines(read, group);
    assert forall|i: int| 0 <= i < MAX_LINES implies Some(#[trigger] parse_text(text, group)[i])
        == parse_line(split_lines(text)[i], group) by {
        assert(read[i] == split_lines(text)[i]);
    }
}

/// A text gives no more than `MAX_LINES` words, whatever its length; every
/// word has both forms filled in and carries the group.
pub proof fn lemma_parse_text(text: Seq<char>, group: Seq<char>)
    ensures
        parse_text(text, group).len() <= MAX_LINES,
        parse_text(text, group).len() <= split_lines(text).len(),
        forall|i: int|
            0 <= i < parse_text(text, group).len() ==> {
                let word = #[trigger] parse_text(text, group)[i];
                word.english.len() > 0 && word.chinese.len() > 0 && word.group == group
            },
{
    lemma_parse_lines(lines_read(text), group);
}

/// A text that is not empty has at least one line.
proof fn lemma_split_nonempty(text: Seq<char>)
    requires
        text.len() > 0,
    ensures
        split_lines(text).len() > 0,
{
}

/// The number of lines of `text`.
pub fn count_lines(text: &str) -> (count: usize)
    ensures
        count == split_lines(text@).len(),
{
    let chars = to_chars(text);
    let len = chars.len();
    let mut pos: usize = 0;
    let mut count: usize = 0;
    let ghost mut done: Seq<Seq<char>> = Seq::empty();
    assert(text@.subrange(0, len as int) =~= text@);
    while pos < len
        invariant
            chars@ == text@,
            len == chars@.len(),
            pos <= len,
            count <= pos,
            done.len() == count,
            split_lines(text@) == done + split_lines(text@.subrange(pos as int, len as int)),
        decreases len - pos,
    {
        let end = find_char(&chars, pos, len, '\n');
        proof {
            lemma_split_step(text@, pos as int, end as int);
            let line = text@.subrange(pos as int, end as int);
            let rest = if end < len {
                text@.subrange(end + 1, len as int)
            } else {
                Seq::empty()
            };
            assert(done + (seq![line] + split_lines(rest)) =~= done.push(line) + split_lines(
                rest,
            ));
            if end >= len {
                assert(text@.subrange(len as int, len as int) =~= Seq::<char>::empty());
            }
            done = done.push(line);
        }
        pos = if end < len {
            end + 1
        } else {
            end
        };
        count += 1;
    }
    proof {
        assert(text@.subrange(pos as int, len as int).len() == 0);
        assert(done + split_lines(text@.subrange(pos as int, len as int)) =~= done);
    }
    count
}

} // verus!
