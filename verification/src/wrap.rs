//! Breaking text into lines of limited width.
use vstd::prelude::*;

use crate::text;

verus! {

/// How many of `words` the first line takes, given that it takes `n` already:
/// it goes on taking words for as long as the line stays within `max` characters.
pub open spec fn line_words(words: Seq<Seq<char>>, max: nat, n: nat) -> nat
    decreases words.len() - n,
{
    if n < words.len() && text::joined(words.take(n as int + 1), seq![' ']).len() <= max {
        line_words(words, max, n + 1)
    } else {
        n
    }
}

/// The lines that `words` fill: each takes at least one word, and then as many
/// more as keep it within `max` characters.
pub open spec fn layout(words: Seq<Seq<char>>, max: nat) -> Seq<Seq<char>>
    decreases words.len(),
    via layout_decreases
{
    if words.len() == 0 {
        Seq::empty()
    } else {
        let n = line_words(words, max, 1);
        seq![text::joined(words.take(n as int), seq![' '])] + layout(words.skip(n as int), max)
    }
}

#[via_fn]
proof fn layout_decreases(words: Seq<Seq<char>>, max: nat) {
    if words.len() > 0 {
        lemma_line_words_bounds(words, max, 1);
    }
}

proof fn lemma_line_words_bounds(words: Seq<Seq<char>>, max: nat, n: nat)
    requires
        n <= words.len(),
    ensures
        n <= line_words(words, max, n) <= words.len(),
    decreases words.len() - n,
{
    if n < words.len() && text::joined(words.take(n as int + 1), seq![' ']).len() <= max {
        lemma_line_words_bounds(words, max, n + 1);
    }
}

/// `line` cut so that an ellipsis still fits within `max` characters, and the
/// ellipsis behind it.
pub open spec fn ellipsized(line: Seq<char>, max: nat) -> Seq<char> {
    let room = if max == 0 {
        0
    } else {
        max - 1
    };
    if line.len() <= room {
        line.push('\u{2026}')
    } else {
        line.take(room).push('\u{2026}')
    }
}

/// `s` on lines of at most `max_chars` characters, but for a longer word, which
/// has a line to itself. Of more than `max_lines` lines only so many are kept,
/// and the last one ends in an ellipsis.
pub open spec fn wrapped(s: Seq<char>, max_chars: nat, max_lines: nat) -> Seq<Seq<char>> {
    let all = layout(text::words(s), max_chars);
    if all.len() <= max_lines {
        all
    } else if max_lines == 0 {
        Seq::empty()
    } else {
        let last = max_lines - 1;
        all.take(last).push(ellipsized(all[last], max_chars))
    }
}

/// Appends the characters of `more`.
fn append_chars(v: &mut Vec<char>, more: &Vec<char>)
    ensures
        final(v)@ == old(v)@ + more@,
{
    let ghost before = v@;
    for i in 0..more.len()
        invariant
            v@ == before + more@.take(i as int),
    {
        v.push(more[i]);
        assert(v@ =~= before + more@.take(i as int + 1));
    }
    assert(more@.take(more@.len() as int) =~= more@);
}

/// The line that the words from `start` on fill, and the place of the first
/// word behind it.
fn fill_line(words: &Vec<Vec<char>>, start: usize, max: usize) -> (r: (Vec<char>, usize))
    requires
        start < words@.len(),
    ensures
        ({
            let rest = text::char_texts(words@).skip(start as int);
            let n = line_words(rest, max as nat, 1);
            &&& r.0@ == text::joined(rest.take(n as int), seq![' '])
            &&& r.1 == start + n
        }),
{
    let ghost rest = text::char_texts(words@).skip(start as int);
    let mut line = text::slice_of(&words[start], 0, words[start].len());
    let count = words.len();
    let mut end: usize = start + 1;
    assert(line@ =~= rest[0]);
    while end < count && words[end].len() < max && line.len() < max - words[end].len()
        invariant
            start < end <= words@.len(),
            count == words@.len(),
            rest == text::char_texts(words@).skip(start as int),
            line@ == text::joined(rest.take(end - start), seq![' ']),
            line_words(rest, max as nat, 1) == line_words(rest, max as nat, (end - start) as nat),
        decreases words@.len() - end,
    {
        let ghost n = end - start;
        proof {
            let longer = rest.take(n + 1);
            assert(longer.drop_last() =~= rest.take(n));
            assert(longer.last() == words@[end as int]@);
        }
        line.push(' ');
        append_chars(&mut line, &words[end]);
        proof {
            assert(line@ =~= text::joined(rest.take(n), seq![' ']) + seq![' '] + words@[end as int]@);
        }
        end = end + 1;
    }
    proof {
        let n = end - start;
        if n < rest.len() {
            let longer = rest.take(n + 1);
            assert(longer.drop_last() =~= rest.take(n));
            assert(longer.last() == words@[end as int]@);
        }
    }
    (line, end)
}

/// Cuts `line` so that an ellipsis fits within `max` characters, and appends it.
fn ellipsize(line: &mut Vec<char>, max: usize)
    ensures
        final(line)@ == ellipsized(old(line)@, max as nat),
{
    let room: usize = if max == 0 {
        0
    } else {
        max - 1
    };
    if line.len() > room {
        line.truncate(room);
    }
    line.push('\u{2026}');
}

/// Greedy word wrap of `s` at `max_chars` characters per line, capped at
/// `max_lines`. If the text does not fit, the last line is cut and given an
/// ellipsis.
pub fn wrap_text(s: &str, max_chars: usize, max_lines: usize) -> (r: Vec<String>)
    ensures
        text::texts(r@) == wrapped(s@, max_chars as nat, max_lines as nat),
{
    let words = text::words_of(s);
    let ghost all_words = text::words(s@);
    let ghost all = layout(all_words, max_chars as nat);
    let mut lines: Vec<Vec<char>> = Vec::new();
    let mut i: usize = 0;
    proof {
        assert(all_words.skip(0) =~= all_words);
        assert(text::char_texts(lines@) + all =~= all);
    }
    while i < words.len() && lines.len() < max_lines
        invariant
            i <= words@.len(),
            all_words == text::char_texts(words@),
            lines@.len() <= max_lines,
            all == layout(all_words, max_chars as nat),
            all == text::char_texts(lines@) + layout(all_words.skip(i as int), max_chars as nat),
        decreases words@.len() - i,
    {
        let ghost rest = all_words.skip(i as int);
        proof {
            lemma_line_words_bounds(rest, max_chars as nat, 1);
        }
        let ghost so_far = text::char_texts(lines@);
        let (line, end) = fill_line(&words, i, max_chars);
        let ghost text_of_line = line@;
        lines.push(line);
        proof {
            assert(rest.skip(end - i) =~= all_words.skip(end as int));
            assert(text::char_texts(lines@) =~= so_far.push(text_of_line));
            assert(so_far + (seq![text_of_line] + layout(all_words.skip(end as int), max_chars as nat))
                =~= so_far.push(text_of_line) + layout(all_words.skip(end as int), max_chars as nat));
        }
        i = end;
    }
    let ghost kept = text::char_texts(lines@);
    if i < words.len() && lines.len() > 0 {
        let at = lines.len() - 1;
        let mut last = text::slice_of(&lines[at], 0, lines[at].len());
        assert(last@ =~= kept[at as int]);
        ellipsize(&mut last, max_chars);
        let ghost cut = last@;
        lines.set(at, last);
        assert(text::char_texts(lines@) =~= kept.take(at as int).push(cut));
        assert(all.take(at as int) =~= kept.take(at as int));
    } else {
        assert(i == words@.len() ==> all =~= kept);
    }
    let mut out: Vec<String> = Vec::new();
    for k in 0..lines.len()
        invariant
            text::texts(out@) == text::char_texts(lines@).take(k as int),
    {
        let ghost so_far = text::texts(out@);
        out.push(text::string_of(&lines[k]));
        assert(text::texts(out@) =~= so_far.push(lines@[k as int]@));
        assert(text::char_texts(lines@).take(k as int + 1) =~= so_far.push(lines@[k as int]@));
    }
    assert(text::char_texts(lines@).take(lines@.len() as int) =~= text::char_texts(lines@));
    out
}

// ---------------------------------------------------------------------------
// What holds of wrapped text

/// A line is within the limit, or it is one word.
proof fn lemma_line_width(words: Seq<Seq<char>>, max: nat, n: nat)
    requires
        0 < n <= words.len(),
        n == 1 || text::joined(words.take(n as int), seq![' ']).len() <= max,
    ensures
        ({
            let m = line_words(words, max, n);
            m == 1 || text::joined(words.take(m as int), seq![' ']).len() <= max
        }),
    decreases words.len() - n,
{
    if n < words.len() && text::joined(words.take(n as int + 1), seq![' ']).len() <= max {
        lemma_line_width(words, max, n + 1);
    }
}

/// Every line of a layout is within the limit or is a single word.
proof fn lemma_layout_width(words: Seq<Seq<char>>, max: nat)
    ensures
        forall|i: int|
            0 <= i < layout(words, max).len() ==> (#[trigger] layout(words, max)[i]).len() <= max
                || words.contains(layout(words, max)[i]),
    decreases words.len(),
{
    if words.len() > 0 {
        lemma_line_words_bounds(words, max, 1);
        let n = line_words(words, max, 1);
        let rest = words.skip(n as int);
        let all = layout(words, max);
        lemma_line_width(words, max, 1);
        lemma_layout_width(rest, max);
        assert forall|i: int| 0 <= i < all.len() implies (#[trigger] all[i]).len() <= max
            || words.contains(all[i]) by {
            if i == 0 {
                if n == 1 {
                    assert(words.take(1)[0] == words[0]);
                    assert(all[0] == words[0]);
                }
            } else {
                assert(all[i] == layout(rest, max)[i - 1]);
                if rest.contains(all[i]) {
                    let k = choose|k: int| 0 <= k < rest.len() && rest[k] == all[i];
                    assert(words[n + k] == all[i]);
                }
            }
        }
    }
}

proof fn lemma_layout_keeps_words(words: Seq<Seq<char>>, max: nat)
    ensures
        text::joined(layout(words, max), seq![' ']) == text::joined(words, seq![' ']),
        layout(words, max).len() > 0 <==> words.len() > 0,
    decreases words.len(),
{
    if words.len() > 0 {
        let sep = seq![' '];
        lemma_line_words_bounds(words, max, 1);
        let n = line_words(words, max, 1);
        let front = words.take(n as int);
        let rest = words.skip(n as int);
        lemma_layout_keeps_words(rest, max);
        let line = text::joined(front, sep);
        assert(front + rest =~= words);
        if rest.len() > 0 {
            text::lemma_joined_concat(front, rest, sep);
            text::lemma_joined_concat(seq![line], layout(rest, max), sep);
        } else {
            assert(front =~= words);
            assert(layout(words, max) =~= seq![line]);
        }
    }
}

/// Whether all of `s` fits on `max_lines` lines.
pub open spec fn fits(s: Seq<char>, max_chars: nat, max_lines: nat) -> bool {
    layout(text::words(s), max_chars).len() <= max_lines
}

/// There are never more lines than asked for.
pub proof fn law_wrap_line_count(s: Seq<char>, max_chars: nat, max_lines: nat)
    ensures
        wrapped(s, max_chars, max_lines).len() <= max_lines,
{
}

/// A line is longer than asked for only if it is a single word of the text, or
/// if it is the ellipsis and no character was asked for.
pub proof fn law_wrap_line_width(s: Seq<char>, max_chars: nat, max_lines: nat)
    ensures
        forall|i: int|
            0 <= i < wrapped(s, max_chars, max_lines).len() ==> {
                let line = #[trigger] wrapped(s, max_chars, max_lines)[i];
                ||| line.len() <= max_chars
                ||| text::words(s).contains(line)
                ||| max_chars == 0 && line == seq!['\u{2026}']
            },
{
    let all = layout(text::words(s), max_chars);
    let lines = wrapped(s, max_chars, max_lines);
    lemma_layout_width(text::words(s), max_chars);
    assert forall|i: int| 0 <= i < lines.len() implies {
        let line = #[trigger] lines[i];
        ||| line.len() <= max_chars
        ||| text::words(s).contains(line)
        ||| max_chars == 0 && line == seq!['\u{2026}']
    } by {
        assert(i < all.len());
        assert(all[i].len() <= max_chars || text::words(s).contains(all[i]));
        if max_chars == 0 && lines[i] != all[i] {
            assert(lines[i] =~= seq!['\u{2026}']);
        }
    }
}

/// Where the text fits, no word is lost: the lines joined by spaces are the
/// words joined by spaces.
pub proof fn law_wrap_loses_nothing(s: Seq<char>, max_chars: nat, max_lines: nat)
    requires
        fits(s, max_chars, max_lines),
    ensures
        text::joined(wrapped(s, max_chars, max_lines), seq![' ']) == text::joined(
            text::words(s),
            seq![' '],
        ),
{
    lemma_layout_keeps_words(text::words(s), max_chars);
}

/// Where the text does not fit, the overflow is not dropped silently: there
/// are as many lines as asked for, and the last ends in an ellipsis.
pub proof fn law_wrap_marks_overflow(s: Seq<char>, max_chars: nat, max_lines: nat)
    requires
        !fits(s, max_chars, max_lines),
        max_lines > 0,
    ensures
        wrapped(s, max_chars, max_lines).len() == max_lines,
        wrapped(s, max_chars, max_lines).last().len() > 0,
        wrapped(s, max_chars, max_lines).last().last() == '\u{2026}',
{
}

/// The first word of words joined by spaces.
proof fn lemma_first_word(parts: Seq<Seq<char>>)
    requires
        parts.len() > 0,
        !parts[0].contains(' '),
    ensures
        text::before(text::joined(parts, seq![' ']), ' ') == parts[0],
    decreases parts.len(),
{
    let all = text::joined(parts, seq![' ']);
    let first = parts[0];
    text::lemma_find(all, ' ');
    let n = text::find(all, ' ') as int;
    if parts.len() == 1 {
        assert(all == first);
        assert(all.take(all.len() as int) =~= all);
    } else {
        let rest = parts.drop_first();
        assert(parts =~= seq![first] + rest);
        text::law_joined_parts(seq![first], rest, first, seq![' ']);
        assert(all == first + seq![' '] + text::joined(rest, seq![' ']));
        assert(all[first.len() as int] == ' ');
        if n < first.len() {
            assert(first[n] == ' ');
        }
        assert(all.contains(' '));
        assert(n == first.len());
        assert(all.take(n) =~= first);
    }
}

/// A line stops only where the next word does not fit.
proof fn lemma_line_stops(words: Seq<Seq<char>>, max: nat, n: nat)
    requires
        0 < n <= words.len(),
    ensures
        ({
            let m = line_words(words, max, n);
            m < words.len() ==> text::joined(words.take(m as int), seq![' ']).len() + 1
                + words[m as int].len() > max
        }),
    decreases words.len() - n,
{
    if n < words.len() {
        let longer = words.take(n as int + 1);
        assert(longer.drop_last() =~= words.take(n as int));
        if text::joined(longer, seq![' ']).len() <= max {
            lemma_line_stops(words, max, n + 1);
        }
    }
}

proof fn lemma_layout_greedy(words: Seq<Seq<char>>, max: nat, i: int)
    requires
        forall|k: int| 0 <= k < words.len() ==> !(#[trigger] words[k]).contains(' '),
        0 <= i < layout(words, max).len() - 1,
    ensures
        layout(words, max)[i].len() + 1 + text::before(layout(words, max)[i + 1], ' ').len() > max,
    decreases words.len(),
{
    if words.len() > 0 {
        lemma_line_words_bounds(words, max, 1);
        let n = line_words(words, max, 1);
        let rest = words.skip(n as int);
        let more = layout(rest, max);
        lemma_layout_keeps_words(rest, max);
        assert forall|k: int| 0 <= k < rest.len() implies !(#[trigger] rest[k]).contains(' ') by {
            assert(rest[k] == words[n + k]);
        }
        if i > 0 {
            lemma_layout_greedy(rest, max, i - 1);
        } else {
            lemma_line_stops(words, max, 1);
            lemma_line_words_bounds(rest, max, 1);
            let m = line_words(rest, max, 1);
            assert(rest.take(m as int)[0] == words[n as int]);
            lemma_first_word(rest.take(m as int));
        }
    }
}

/// Wrapping is greedy: a line ends only where the first word of the next line
/// would not fit on it with a space before it.
pub proof fn law_wrap_is_greedy(s: Seq<char>, max_chars: nat, max_lines: nat, i: int)
    requires
        fits(s, max_chars, max_lines),
        0 <= i < wrapped(s, max_chars, max_lines).len() - 1,
    ensures
        ({
            let lines = wrapped(s, max_chars, max_lines);
            lines[i].len() + 1 + text::before(lines[i + 1], ' ').len() > max_chars
        }),
{
    let words = text::words(s);
    text::lemma_runs_in_class(text::CharClass::Visible, s);
    assert forall|k: int| 0 <= k < words.len() implies !(#[trigger] words[k]).contains(' ') by {
        if words[k].contains(' ') {
            let j = choose|j: int| 0 <= j < words[k].len() && words[k][j] == ' ';
            assert(text::in_class(text::CharClass::Visible, words[k][j]));
        }
    }
    lemma_layout_greedy(words, max_chars, i);
}

/// How many lines may be had changes only where the text is cut off. Where it
/// fits, more room changes nothing. Where it does not, the lines before the last
/// are those of the text with more room; the last one is the line that stands
/// there then, cut so that the ellipsis fits, and the ellipsis.
pub proof fn law_wrap_is_cut_at_the_end_only(
    s: Seq<char>,
    max_chars: nat,
    max_lines: nat,
    more_lines: nat,
)
    requires
        max_lines < more_lines,
    ensures
        fits(s, max_chars, max_lines) ==> wrapped(s, max_chars, max_lines) == wrapped(
            s,
            max_chars,
            more_lines,
        ),
        !fits(s, max_chars, max_lines) ==> wrapped(s, max_chars, more_lines).len() > max_lines,
        !fits(s, max_chars, max_lines) && max_lines > 0 ==> {
            let cut = wrapped(s, max_chars, max_lines);
            let whole = wrapped(s, max_chars, more_lines);
            let line = whole[max_lines - 1];
            let room = if max_chars == 0 {
                0int
            } else {
                max_chars - 1
            };
            &&& cut.drop_last() == whole.take(max_lines - 1)
            &&& cut.last() == if line.len() <= room {
                line + seq!['\u{2026}']
            } else {
                line.take(room) + seq!['\u{2026}']
            }
        },
{
    let all = layout(text::words(s), max_chars);
    let whole = wrapped(s, max_chars, more_lines);
    let cut = wrapped(s, max_chars, max_lines);
    if !fits(s, max_chars, max_lines) && max_lines > 0 {
        assert(whole[max_lines - 1] == all[max_lines - 1]);
        assert(cut.drop_last() =~= all.take(max_lines - 1));
        assert(whole.take(max_lines - 1) =~= all.take(max_lines - 1));
        let line = all[max_lines - 1];
        assert(cut.last() == ellipsized(line, max_chars));
        let room = if max_chars == 0 {
            0int
        } else {
            max_chars - 1
        };
        assert(cut.last() =~= if line.len() <= room {
            line + seq!['\u{2026}']
        } else {
            line.take(room) + seq!['\u{2026}']
        });
    }
}

} // verus!
