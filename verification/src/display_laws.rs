//! What holds of the list of displays and of choosing one, in terms of what the
//! platforms report.
use vstd::prelude::*;
use vstd::string::*;

use crate::display;
use crate::display::{
    DeviceListing, DisplayInfo, DisplaySource, DisplayTarget, DisplayView, OutputDesc, TargetView,
    XrandrRun,
};
use crate::text;
use crate::utf16;

verus! {

// ---------------------------------------------------------------------------
// Windows
// ---------------------------------------------------------------------------

/// What stands before the first zero, or all.
proof fn lemma_before_nul(units: Seq<u16>, n: int)
    requires
        0 <= n <= units.len(),
        forall|i: int| 0 <= i < n ==> #[trigger] units[i] != 0,
        n < units.len() ==> units[n] == 0,
    ensures
        display::before_nul(units) == units.take(n),
    decreases units.len(),
{
    if n > 0 {
        let rest = units.skip(1);
        assert forall|i: int| 0 <= i < n - 1 implies #[trigger] rest[i] != 0 by {
            assert(rest[i] == units[i + 1]);
        }
        lemma_before_nul(rest, n - 1);
        assert(units[0] != 0);
        assert(seq![units[0]] + rest.take(n - 1) =~= units.take(n));
    } else {
        assert(units.take(0) =~= Seq::empty());
    }
}

/// The display is that of this output, which stands at this position among those
/// of its adapter. It is primary exactly if the output's rectangle begins at the
/// origin, and it has the rectangle's width and height.
pub open spec fn shows(d: DisplayView, output: OutputDesc, position: int) -> bool {
    &&& d.is_primary <==> output.left == 0 && output.top == 0
    &&& output.left <= output.right ==> d.width == output.right - output.left
    &&& output.top <= output.bottom ==> d.height == output.bottom - output.top
    &&& d.can_capture == output.can_capture
    &&& d.adapter_output_idx == position
    &&& forall|n: int|
        0 <= n <= output.device_name@.len() && (forall|i: int|
            0 <= i < n ==> #[trigger] output.device_name@[i] != 0) && (n
            < output.device_name@.len() ==> output.device_name@[n] == 0) ==> d.name
            == utf16::decoded(#[trigger] output.device_name@.take(n))
}

proof fn lemma_outputs(outputs: Seq<OutputDesc>, start: nat) -> (at: Seq<int>)
    requires
        outputs.len() <= u32::MAX,
        forall|j: int|
            0 <= j < outputs.len() && (#[trigger] outputs[j]).attached ==> outputs[j].valid(),
    ensures
        ({
            let displays = display::displays_at_outputs(outputs, start);
            &&& at.len() == displays.len()
            &&& forall|k: int|
                0 <= k < at.len() ==> {
                    &&& 0 <= #[trigger] at[k] < outputs.len()
                    &&& outputs[at[k]].attached
                    &&& shows(displays[k], outputs[at[k]], at[k])
                    &&& displays[k].index == start + k
                }
            &&& forall|j: int, k: int| 0 <= j < k < at.len() ==> #[trigger] at[j] < #[trigger] at[k]
            &&& forall|p: int|
                0 <= p < outputs.len() && (#[trigger] outputs[p]).attached ==> at.contains(p)
        }),
    decreases outputs.len(),
{
    if outputs.len() == 0 {
        Seq::empty()
    } else {
        let front = outputs.drop_last();
        assert forall|j: int| 0 <= j < front.len() && (
        #[trigger] front[j]).attached implies front[j].valid() by {
            assert(front[j] == outputs[j]);
        }
        let before = lemma_outputs(front, start);
        let n = outputs.len() - 1;
        let shown = display::displays_at_outputs(front, start);
        let displays = display::displays_at_outputs(outputs, start);
        let at = if outputs.last().attached {
            before.push(n)
        } else {
            before
        };
        assert forall|k: int| 0 <= k < at.len() implies {
            &&& 0 <= #[trigger] at[k] < outputs.len()
            &&& outputs[at[k]].attached
            &&& shows(displays[k], outputs[at[k]], at[k])
            &&& displays[k].index == start + k
        } by {
            if k < before.len() {
                assert(at[k] == before[k]);
                assert(outputs[at[k]] == front[before[k]]);
                assert(displays[k] == shown[k]);
            } else {
                let output = outputs.last();
                assert(output.valid());
                assert forall|m: int|
                    0 <= m <= output.device_name@.len() && (forall|i: int|
                        0 <= i < m ==> #[trigger] output.device_name@[i] != 0) && (m
                        < output.device_name@.len() ==> output.device_name@[m]
                        == 0) implies displays[k].name == utf16::decoded(
                    #[trigger] output.device_name@.take(m),
                ) by {
                    lemma_before_nul(output.device_name@, m);
                }
            }
        }
        assert forall|p: int| 0 <= p < outputs.len() && (
        #[trigger] outputs[p]).attached implies at.contains(p) by {
            if p < n {
                assert(front[p] == outputs[p]);
                let k = choose|k: int| 0 <= k < before.len() && before[k] == p;
                assert(at[k] == p);
            } else {
                assert(at[before.len() as int] == n);
            }
        }
        at
    }
}

/// Adapters and outputs in the order in which they are reported.
pub open spec fn earlier(a: (int, int), b: (int, int)) -> bool {
    a.0 < b.0 || a.0 == b.0 && a.1 < b.1
}

/// On Windows the outputs that are part of the desktop are listed, all of them
/// and no others, in the order in which they are reported. Display `k` is that
/// of output `at[k].1` of adapter `at[k].0`.
pub proof fn displays_are_the_attached_outputs(adapters: Seq<Vec<OutputDesc>>) -> (at: Seq<
    (int, int),
>)
    requires
        display::adapters_valid(adapters),
    ensures
        ({
            let displays = display::displays_at_adapters(adapters);
            &&& at.len() == displays.len()
            &&& forall|k: int|
                0 <= k < at.len() ==> {
                    let (a, p) = #[trigger] at[k];
                    &&& 0 <= a < adapters.len()
                    &&& 0 <= p < adapters[a]@.len()
                    &&& adapters[a]@[p].attached
                    &&& shows(displays[k], adapters[a]@[p], p)
                    &&& displays[k].index == k
                }
            &&& forall|j: int, k: int|
                0 <= j < k < at.len() ==> earlier(#[trigger] at[j], #[trigger] at[k])
            &&& forall|a: int, p: int|
                0 <= a < adapters.len() && 0 <= p < adapters[a]@.len() && (
                #[trigger] adapters[a]@[p]).attached ==> at.contains((a, p))
        }),
    decreases adapters.len(),
{
    if adapters.len() == 0 {
        Seq::empty()
    } else {
        let front = adapters.drop_last();
        let n = adapters.len() - 1;
        assert(display::adapters_valid(front)) by {
            assert forall|i: int|
                #![trigger front[i]]
                0 <= i < front.len() implies front[i]@.len() <= u32::MAX && forall|j: int|
                #![trigger front[i]@[j]]
                0 <= j < front[i]@.len() && front[i]@[j].attached ==> front[i]@[j].valid() by {
                assert(front[i] == adapters[i]);
            }
        }
        let before = displays_are_the_attached_outputs(front);
        let listed = display::displays_at_adapters(front);
        let displays = display::displays_at_adapters(adapters);
        assert(adapters[n]@.len() <= u32::MAX);
        let own = lemma_outputs(adapters[n]@, listed.len());
        let added = display::displays_at_outputs(adapters[n]@, listed.len());
        let at = before + Seq::new(own.len(), |k: int| (n as int, own[k]));
        assert forall|k: int| 0 <= k < at.len() implies {
            let (a, p) = #[trigger] at[k];
            &&& 0 <= a < adapters.len()
            &&& 0 <= p < adapters[a]@.len()
            &&& adapters[a]@[p].attached
            &&& shows(displays[k], adapters[a]@[p], p)
            &&& displays[k].index == k
        } by {
            if k < before.len() {
                assert(at[k] == before[k]);
                assert(front[before[k].0] == adapters[before[k].0]);
                assert(displays[k] == listed[k]);
            } else {
                let j = k - before.len();
                assert(at[k] == (n as int, own[j]));
                assert(displays[k] == added[j]);
            }
        }
        assert forall|j: int, k: int| 0 <= j < k < at.len() implies earlier(
            #[trigger] at[j],
            #[trigger] at[k],
        ) by {
            if j < before.len() {
                assert(at[j] == before[j]);
                if k < before.len() {
                    assert(at[k] == before[k]);
                } else {
                    assert(at[k].0 == n);
                }
            } else {
                assert(own[j - before.len()] < own[k - before.len()]);
            }
        }
        assert forall|a: int, p: int| 0 <= a < adapters.len() && 0 <= p < adapters[a]@.len() && (
        #[trigger] adapters[a]@[p]).attached implies at.contains((a, p)) by {
            if a < n {
                assert(front[a]@[p].attached);
                let k = choose|k: int| 0 <= k < before.len() && before[k] == (a, p);
                assert(at[k] == (a, p));
            } else {
                assert(own.contains(p));
                let k = choose|k: int| 0 <= k < own.len() && own[k] == p;
                assert(at[before.len() + k] == (a, p));
            }
        }
        at
    }
}

/// The two rectangles have a point in common.
pub open spec fn overlap(a: OutputDesc, b: OutputDesc) -> bool {
    a.left < b.right && b.left < a.right && a.top < b.bottom && b.top < a.bottom
}

/// Where the outputs that are part of the desktop have rectangles that are not
/// empty and do not overlap, at most one display is primary.
pub proof fn one_display_is_primary(adapters: Seq<Vec<OutputDesc>>, j: int, k: int)
    requires
        display::adapters_valid(adapters),
        forall|a: int, p: int|
            0 <= a < adapters.len() && 0 <= p < adapters[a]@.len() && (
            #[trigger] adapters[a]@[p]).attached ==> adapters[a]@[p].left < adapters[a]@[p].right
                && adapters[a]@[p].top < adapters[a]@[p].bottom,
        forall|a: int, p: int, b: int, q: int|
            0 <= a < adapters.len() && 0 <= p < adapters[a]@.len() && 0 <= b < adapters.len() && 0
                <= q < adapters[b]@.len() && (#[trigger] adapters[a]@[p]).attached && (
            #[trigger] adapters[b]@[q]).attached && (a, p) != (b, q) ==> !overlap(
                adapters[a]@[p],
                adapters[b]@[q],
            ),
        0 <= j < display::displays_at_adapters(adapters).len(),
        0 <= k < display::displays_at_adapters(adapters).len(),
        display::displays_at_adapters(adapters)[j].is_primary,
        display::displays_at_adapters(adapters)[k].is_primary,
    ensures
        j == k,
{
    let at = displays_are_the_attached_outputs(adapters);
    let (a, p) = at[j];
    let (b, q) = at[k];
    assert(adapters[a]@[p].attached && adapters[b]@[q].attached);
    if j < k {
        assert(earlier(at[j], at[k]));
    } else if k < j {
        assert(earlier(at[k], at[j]));
    }
}

// ---------------------------------------------------------------------------
// Linux
// ---------------------------------------------------------------------------

/// A size and an offset as xrandr prints them.
pub open spec fn geometry_text(width: u32, height: u32, offset: Seq<char>) -> Seq<char> {
    text::decimal(width as nat) + seq!['x'] + text::decimal(height as nat) + seq!['+'] + offset
}

proof fn lemma_decimal_digits(n: nat)
    ensures
        text::decimal(n).len() > 0,
        forall|i: int|
            0 <= i < text::decimal(n).len() ==> '0' <= #[trigger] text::decimal(n)[i] <= '9',
{
    text::decimal_reads_back(n, n);
    let d = text::decimal(n);
    text::decimal_is_positional(n);
    text::numbers_are_read_digit_by_digit(d, '0', n);
    assert forall|i: int| 0 <= i < d.len() implies '0' <= #[trigger] d[i] <= '9' by {
        if i == 0 && d[0] == '+' {
            lemma_first_digit(n);
        }
    }
}

proof fn lemma_first_digit(n: nat)
    ensures
        text::decimal(n).len() > 0,
        '0' <= text::decimal(n)[0] <= '9',
    decreases n,
{
    text::decimal_is_positional(n);
    if n >= 10 {
        lemma_first_digit(n / 10);
        assert(text::decimal(n)[0] == text::decimal(n).drop_last()[0]);
    }
}

proof fn lemma_geometry(width: u32, height: u32, offset: Seq<char>)
    requires
        forall|i: int| 0 <= i < offset.len() ==> !text::white(#[trigger] offset[i]),
    ensures
        ({
            let word = geometry_text(width, height, offset);
            &&& display::geometry(word)
            &&& display::size_in(word) == Some((width as nat, height as nat))
            &&& word.len() > 0
            &&& forall|i: int| 0 <= i < word.len() ==> !text::white(#[trigger] word[i])
        }),
{
    let w = text::decimal(width as nat);
    let h = text::decimal(height as nat);
    let word = geometry_text(width, height, offset);
    let size = w + seq!['x'] + h;
    lemma_decimal_digits(width as nat);
    lemma_decimal_digits(height as nat);
    assert(word =~= size + seq!['+'] + offset);
    assert(!size.contains('+')) by {
        if size.contains('+') {
            let i = choose|i: int| 0 <= i < size.len() && size[i] == '+';
            if i < w.len() {
                assert(size[i] == w[i]);
            } else if i > w.len() {
                assert(size[i] == h[i - w.len() - 1]);
            }
        }
    }
    assert(!w.contains('x')) by {
        if w.contains('x') {
            let i = choose|i: int| 0 <= i < w.len() && w[i] == 'x';
            assert(w[i] <= '9');
        }
    }
    text::texts_are_split_at_a_character(size, '+', offset);
    text::texts_are_split_at_a_character(w, 'x', h);
    text::decimal_reads_back(width as nat, u32::MAX as nat);
    text::decimal_reads_back(height as nat, u32::MAX as nat);
    assert(word[0] == w[0]);
    assert(word[w.len() as int] == 'x');
    assert(word[size.len() as int] == '+');
    assert forall|i: int| 0 <= i < word.len() implies !text::white(#[trigger] word[i]) by {
        if i < w.len() {
            assert(word[i] == w[i]);
        } else if w.len() < i < size.len() {
            assert(word[i] == h[i - w.len() - 1]);
        } else if i > size.len() {
            assert(word[i] == offset[i - size.len() - 1]);
        }
    }
}

/// The line of a connected output is read back: its name, its size, and whether
/// it is the primary one. What follows the geometry behind whitespace does not
/// matter.
pub proof fn connected_outputs_are_read(
    name: Seq<char>,
    primary: bool,
    width: u32,
    height: u32,
    offset: Seq<char>,
    tail: Seq<char>,
    index: nat,
)
    requires
        name.len() > 0,
        forall|i: int| 0 <= i < name.len() ==> !text::white(#[trigger] name[i]),
        forall|i: int| 0 <= i < offset.len() ==> !text::white(#[trigger] offset[i]),
        tail.len() > 0 ==> text::white(tail[0]),
        !text::words_of(tail).contains("primary"@),
    ensures
        ({
            let line = name + seq![' '] + "connected"@ + seq![' '] + (if primary {
                "primary"@ + seq![' ']
            } else {
                Seq::empty()
            }) + geometry_text(width, height, offset) + tail;
            let d = display::xrandr_display(line, index);
            &&& d is Some
            &&& d->0.name == name
            &&& d->0.width == width
            &&& d->0.height == height
            &&& d->0.is_primary == primary
            &&& d->0.can_capture
            &&& d->0.index == index
            &&& index <= u32::MAX ==> d->0.adapter_output_idx == index
        }),
{
    let word = geometry_text(width, height, offset);
    let mark = if primary {
        "primary"@ + seq![' ']
    } else {
        Seq::<char>::empty()
    };
    let last = word + tail;
    let marked = mark + last;
    let line = name + seq![' '] + "connected"@ + seq![' '] + mark + word + tail;
    lemma_geometry(width, height, offset);
    let words = seq![word] + text::words_of(tail);
    text::words_are_read_one_by_one(word, tail);
    assert(text::words_of(last) == words);
    let found = if primary {
        seq!["primary"@] + words
    } else {
        words
    };
    if primary {
        lemma_primary_first(last);
        assert(marked =~= "primary"@ + seq![' '] + last);
    } else {
        assert(marked =~= last);
    }
    assert(line =~= name + seq![' '] + "connected"@ + seq![' '] + marked);
    lemma_connected_first(name, marked);
    lemma_geometry_found(primary, word, text::words_of(tail));
    let all = text::words_of(line);
    assert(all == seq![name, "connected"@] + found);
    assert(all.skip(1) =~= seq!["connected"@] + found);
    assert(all[0] == name);
}

proof fn lemma_primary_first(rest: Seq<char>)
    ensures
        text::words_of("primary"@ + seq![' '] + rest) == seq!["primary"@] + text::words_of(rest),
{
    let main = "primary"@;
    reveal_strlit("primary");
    text::lemma_words_behind_space(rest);
    text::words_are_read_one_by_one(main, seq![' '] + rest);
    assert(main + seq![' '] + rest =~= main + (seq![' '] + rest));
}

proof fn lemma_connected_first(name: Seq<char>, rest: Seq<char>)
    requires
        name.len() > 0,
        forall|i: int| 0 <= i < name.len() ==> !text::white(#[trigger] name[i]),
    ensures
        ({
            let line = name + seq![' '] + "connected"@ + seq![' '] + rest;
            &&& text::words_of(line) == seq![name, "connected"@] + text::words_of(rest)
            &&& text::contains_text(line, " connected"@)
        }),
{
    let connected = "connected"@;
    let line = name + seq![' '] + connected + seq![' '] + rest;
    reveal_strlit("connected");
    reveal_strlit(" connected");
    text::lemma_words_behind_space(rest);
    text::words_are_read_one_by_one(connected, seq![' '] + rest);
    let body = connected + (seq![' '] + rest);
    text::lemma_words_behind_space(body);
    text::words_are_read_one_by_one(name, seq![' '] + body);
    assert(line =~= name + (seq![' '] + body));
    assert(text::words_of(line) =~= seq![name, connected] + text::words_of(rest));
    let n = name.len() as int;
    assert(line.subrange(n, n + 10) =~= " connected"@);
    assert(text::stands_at(line, " connected"@, n));
}

proof fn lemma_geometry_found(primary: bool, word: Seq<char>, others: Seq<Seq<char>>)
    requires
        display::geometry(word),
        !others.contains("primary"@),
    ensures
        ({
            let words = seq![word] + others;
            let rest = seq!["connected"@] + (if primary {
                seq!["primary"@] + words
            } else {
                words
            });
            &&& display::first_geometry(rest) == Some(word)
            &&& rest.contains("primary"@) == primary
        }),
{
    let main = "primary"@;
    let connected = "connected"@;
    reveal_strlit("primary");
    reveal_strlit("connected");
    let words = seq![word] + others;
    let found = if primary {
        seq![main] + words
    } else {
        words
    };
    let rest = seq![connected] + found;
    assert(words[0] == word);
    assert(display::first_geometry(words) == Some(word));
    assert(!display::geometry(main));
    assert(!display::geometry(connected));
    if primary {
        assert(found.skip(1) =~= words);
        assert(found[0] == main);
        assert(rest[1] == main);
    }
    assert(display::first_geometry(found) == Some(word));
    assert(rest.skip(1) =~= found);
    assert(rest[0] == connected);
    assert(display::first_geometry(rest) == Some(word));
    if !primary && rest.contains(main) {
        let i = choose|i: int| 0 <= i < rest.len() && rest[i] == main;
        if i == 0 {
            assert(connected.len() != main.len());
        } else if i == 1 {
            assert(word[0] != main[0]);
        } else {
            assert(others[i - 2] == main);
            assert(others.contains(main));
        }
    }
}

/// Only lines that say that an output is connected are listed, and only those
/// with a word that begins with a digit and holds an `x` and a plus sign.
pub proof fn other_outputs_are_not_listed(line: Seq<char>, index: nat)
    ensures
        display::xrandr_display(line, index) is Some ==> {
            &&& exists|i: int|
                0 <= i && i + 10 <= line.len() && #[trigger] line.subrange(i, i + 10)
                    == " connected"@
            &&& exists|k: int|
                {
                    &&& 1 <= k < text::words_of(line).len()
                    &&& (#[trigger] text::words_of(line)[k]).len() > 0
                    &&& '0' <= text::words_of(line)[k][0] <= '9'
                    &&& text::words_of(line)[k].contains('x')
                    &&& text::words_of(line)[k].contains('+')
                }
        },
{
    reveal_strlit(" connected");
    if display::xrandr_display(line, index) is Some {
        let i = choose|i: int| text::stands_at(line, " connected"@, i);
        assert(line.subrange(i, i + 10) == " connected"@);
        let words = text::words_of(line);
        let k = lemma_first_geometry(words.skip(1));
        assert(words.skip(1)[k] == words[k + 1]);
    }
}

proof fn lemma_first_geometry(words: Seq<Seq<char>>) -> (k: int)
    requires
        display::first_geometry(words) is Some,
    ensures
        0 <= k < words.len(),
        display::geometry(words[k]),
    decreases words.len(),
{
    if display::geometry(words[0]) {
        0
    } else {
        let k = lemma_first_geometry(words.skip(1));
        assert(words.skip(1)[k] == words[k + 1]);
        k + 1
    }
}

/// The displays that xrandr reports are those of the lines that describe one,
/// each once and in order: display `k` is that of line `at[k]`.
pub proof fn displays_are_those_of_the_lines(lines: Seq<Seq<char>>) -> (at: Seq<int>)
    ensures
        ({
            let displays = display::xrandr_displays(lines);
            &&& at.len() == displays.len()
            &&& forall|k: int|
                0 <= k < at.len() ==> 0 <= #[trigger] at[k] < lines.len()
                    && display::xrandr_display(lines[at[k]], k as nat) == Some(displays[k])
            &&& forall|j: int, k: int| 0 <= j < k < at.len() ==> #[trigger] at[j] < #[trigger] at[k]
            &&& forall|i: int|
                0 <= i < lines.len() && display::xrandr_display(#[trigger] lines[i], 0) is Some
                    ==> at.contains(i)
        }),
    decreases lines.len(),
{
    if lines.len() == 0 {
        Seq::empty()
    } else {
        let front = lines.drop_last();
        let before = displays_are_those_of_the_lines(front);
        let shown = display::xrandr_displays(front);
        let displays = display::xrandr_displays(lines);
        let n = lines.len() - 1;
        let at = if display::xrandr_display(lines.last(), shown.len()) is Some {
            before.push(n)
        } else {
            before
        };
        assert forall|k: int| 0 <= k < at.len() implies 0 <= #[trigger] at[k] < lines.len()
            && display::xrandr_display(lines[at[k]], k as nat) == Some(displays[k]) by {
            if k < before.len() {
                assert(at[k] == before[k]);
                assert(lines[at[k]] == front[before[k]]);
                assert(displays[k] == shown[k]);
            }
        }
        assert forall|i: int| 0 <= i < lines.len() && display::xrandr_display(
            #[trigger] lines[i],
            0,
        ) is Some implies at.contains(i) by {
            if i < n {
                assert(front[i] == lines[i]);
                let k = choose|k: int| 0 <= k < before.len() && before[k] == i;
                assert(at[k] == i);
            } else {
                assert(at[before.len() as int] == n);
            }
        }
        at
    }
}

// ---------------------------------------------------------------------------
// macOS
// ---------------------------------------------------------------------------

/// A device line is read back: the number stands in the last pair of brackets.
pub proof fn device_numbers_are_read(before: Seq<char>, number: u32, label: Seq<char>)
    requires
        !label.contains('['),
    ensures
        display::device_number(
            before + seq!['['] + text::decimal(number as nat) + seq![']'] + label,
        ) == Some(number as nat),
{
    let d = text::decimal(number as nat);
    let line = before + seq!['['] + d + seq![']'] + label;
    let tail = d + seq![']'] + label;
    lemma_decimal_digits(number as nat);
    assert(line =~= before + seq!['['] + tail);
    assert(!tail.contains('[')) by {
        if tail.contains('[') {
            let i = choose|i: int| 0 <= i < tail.len() && tail[i] == '[';
            if i < d.len() {
                assert(tail[i] == d[i]);
            } else if i > d.len() {
                assert(tail[i] == label[i - d.len() - 1]);
                assert(label.contains('['));
            }
        }
    }
    assert(!d.contains(']')) by {
        if d.contains(']') {
            let i = choose|i: int| 0 <= i < d.len() && d[i] == ']';
            assert(d[i] <= '9');
        }
    }
    text::texts_are_split_at_a_character(before, '[', tail);
    text::texts_are_split_at_a_character(d, ']', label);
    text::decimal_reads_back(number as nat, u32::MAX as nat);
}

/// A line of the profiler's report is read back: the width and the height of a
/// display, whatever is said of them behind.
pub proof fn resolutions_are_read(indent: Seq<char>, width: u32, height: u32, tail: Seq<char>)
    requires
        forall|i: int| 0 <= i < indent.len() ==> text::white(#[trigger] indent[i]),
        tail.len() > 0 ==> !('0' <= tail[0] <= '9') && !text::white(tail.last()),
    ensures
        display::resolution_in(
            indent + "Resolution: "@ + text::decimal(width as nat) + " x "@ + text::decimal(
                height as nat,
            ) + tail,
        ) == Some((width as nat, height as nat)),
{
    let w = text::decimal(width as nat);
    let h = text::decimal(height as nat);
    let line = indent + "Resolution: "@ + w + " x "@ + h + tail;
    let t = "Resolution: "@ + w + " x "@ + h + tail;
    reveal_strlit("Resolution: ");
    reveal_strlit("Resolution:");
    reveal_strlit(" x ");
    lemma_decimal_digits(width as nat);
    lemma_decimal_digits(height as nat);
    let n = indent.len() as int;
    assert(line =~= indent + t);
    assert(line[n] == 'R');
    text::lemma_first_where_is(line, text::ink(), n);
    assert(text::trimmed_start(line) =~= t);
    assert(!text::white(t.last())) by {
        if tail.len() > 0 {
            assert(t.last() == tail.last());
        } else {
            assert(t.last() == h.last());
            assert('0' <= h[h.len() - 1] <= '9');
        }
    }
    assert(text::trimmed_end(t) == t);
    assert(t.subrange(0, 11) =~= "Resolution:"@);
    let rest = t.skip(11);
    let one = seq![' '];
    let mid = " x "@;
    let back = mid + h + tail;
    assert(rest =~= one + w + back);
    assert(back[0] == ' ');
    text::digits_are_read_row_by_row(one, w, back);
    assert forall|i: int| 0 <= i < mid.len() implies !text::digit(#[trigger] mid[i]) by {}
    text::digits_are_read_row_by_row(mid, h, tail);
    let runs = text::digit_runs_of(rest);
    assert(runs[0] == w && runs[1] == h);
    text::decimal_reads_back(width as nat, u32::MAX as nat);
    text::decimal_reads_back(height as nat, u32::MAX as nat);
}

/// A line that does not begin with `Resolution:` gives no resolution.
pub proof fn other_lines_give_no_resolution(line: Seq<char>)
    ensures
        display::resolution_in(line) is Some ==> "Resolution:"@.is_prefix_of(
            text::trimmed_end(text::trimmed_start(line)),
        ),
{
}

/// The screen at a position gets the resolution that is reported at that
/// position, or else that of the main display, which is reported first, or else
/// 1920 x 1080; it is never empty because nothing was reported. It has the number
/// of its device, and the first device is the primary display.
pub proof fn screens_have_a_size(resolutions: Seq<(nat, nat)>, position: nat, number: u32)
    ensures
        position < resolutions.len() ==> display::resolution_at(resolutions, position)
            == resolutions[position as int],
        0 < resolutions.len() <= position ==> display::resolution_at(resolutions, position)
            == resolutions[0],
        resolutions.len() == 0 ==> display::resolution_at(resolutions, position) == (
            1920nat,
            1080nat,
        ),
        ({
            let d = display::screen_display(number as nat, (1920nat, 1080nat));
            &&& d.index == number && d.adapter_output_idx == number
            &&& d.width == 1920 && d.height == 1080
            &&& d.name == "Capture screen "@ + text::decimal(number as nat)
            &&& d.is_primary <==> number == 0
            &&& d.can_capture
        }),
        forall|w: u32, h: u32|
            (#[trigger] display::screen_display(number as nat, (w as nat, h as nat))).width == w
                && display::screen_display(number as nat, (w as nat, h as nat)).height == h,
{
}

/// The screens that ffmpeg lists are those of the lines that name one among the
/// video devices: behind a heading for video, with none for audio in between.
/// Screen `k` is that of line `at[k]`, with the resolution at position `k`.
pub proof fn screens_are_those_of_the_lines(
    lines: Seq<Seq<char>>,
    resolutions: Seq<(nat, nat)>,
) -> (at: Seq<int>)
    ensures
        ({
            let screens = display::screens_in(lines, resolutions);
            &&& at.len() == screens.len()
            &&& forall|k: int|
                0 <= k < at.len() ==> {
                    &&& 0 <= #[trigger] at[k] < lines.len()
                    &&& device_line(lines, at[k])
                    &&& screens[k] == display::screen_display(
                        display::device_number(lines[at[k]])->0,
                        display::resolution_at(resolutions, k as nat),
                    )
                }
            &&& forall|j: int, k: int| 0 <= j < k < at.len() ==> #[trigger] at[j] < #[trigger] at[k]
            &&& forall|i: int| #[trigger] device_line(lines, i) ==> at.contains(i)
        }),
    decreases lines.len(),
{
    if lines.len() == 0 {
        Seq::empty()
    } else {
        let front = lines.drop_last();
        let n = lines.len() - 1;
        let before = screens_are_those_of_the_lines(front, resolutions);
        let shown = display::screens_in(front, resolutions);
        let screens = display::screens_in(lines, resolutions);
        lemma_section(front);
        assert forall|i: int| 0 <= i < n implies device_line(front, i) == #[trigger] device_line(
            lines,
            i,
        ) by {
            lemma_device_line(lines, i);
        }
        lemma_device_line_last(lines);
        let at = if device_line(lines, n) {
            before.push(n)
        } else {
            before
        };
        assert forall|k: int| 0 <= k < at.len() implies {
            &&& 0 <= #[trigger] at[k] < lines.len()
            &&& device_line(lines, at[k])
            &&& screens[k] == display::screen_display(
                display::device_number(lines[at[k]])->0,
                display::resolution_at(resolutions, k as nat),
            )
        } by {
            if k < before.len() {
                assert(at[k] == before[k]);
                assert(device_line(front, before[k]));
                assert(lines[at[k]] == front[before[k]]);
                assert(screens[k] == shown[k]);
            }
        }
        assert forall|i: int| #[trigger] device_line(lines, i) implies at.contains(i) by {
            if i < n {
                assert(device_line(front, i));
                let k = choose|k: int| 0 <= k < before.len() && before[k] == i;
                assert(at[k] == i);
            } else {
                assert(at[before.len() as int] == n);
            }
        }
        at
    }
}

/// This text stands somewhere in the line.
pub open spec fn holds(line: Seq<char>, part: Seq<char>) -> bool {
    exists|i: int|
        0 <= i && i + part.len() <= line.len() && #[trigger] line.subrange(i, i + part.len())
            == part
}

/// Line `v` is a heading for video devices, and there is none for audio devices
/// behind it and up to line `i`.
pub open spec fn video_up_to(lines: Seq<Seq<char>>, v: int, i: int) -> bool {
    &&& 0 <= v < i
    &&& holds(lines[v], "AVFoundation video devices"@)
    &&& forall|j: int|
        v < j < i ==> !holds(#[trigger] lines[j], "AVFoundation audio devices"@) || holds(
            lines[j],
            "AVFoundation video devices"@,
        )
}

/// Line `i` names a screen with its number, among the video devices.
pub open spec fn device_line(lines: Seq<Seq<char>>, i: int) -> bool {
    &&& 0 <= i < lines.len()
    &&& holds(lines[i], "Capture screen"@)
    &&& !holds(lines[i], "AVFoundation video devices"@)
    &&& !holds(lines[i], "AVFoundation audio devices"@)
    &&& display::device_number(lines[i]) is Some
    &&& exists|v: int| #[trigger] video_up_to(lines, v, i)
}

proof fn lemma_holds(line: Seq<char>, part: Seq<char>)
    ensures
        holds(line, part) == text::contains_text(line, part),
{
    if text::contains_text(line, part) {
        let i = choose|i: int| text::stands_at(line, part, i);
        assert(line.subrange(i, i + part.len()) == part);
    }
    if holds(line, part) {
        let i = choose|i: int|
            0 <= i && i + part.len() <= line.len() && #[trigger] line.subrange(i, i + part.len())
                == part;
        assert(text::stands_at(line, part, i));
    }
}

proof fn lemma_section(lines: Seq<Seq<char>>)
    ensures
        display::in_video_section(lines) <==> exists|v: int| #[trigger]
            video_up_to(lines, v, lines.len() as int),
    decreases lines.len(),
{
    let n = lines.len() as int;
    if n > 0 {
        let front = lines.drop_last();
        lemma_section(front);
        lemma_holds(lines.last(), "AVFoundation video devices"@);
        lemma_holds(lines.last(), "AVFoundation audio devices"@);
        if display::in_video_section(lines) {
            if display::video_heading(lines.last()) {
                assert(video_up_to(lines, n - 1, n));
            } else {
                let v = choose|v: int| #[trigger] video_up_to(front, v, n - 1);
                assert(lines[v] == front[v]);
                assert forall|j: int| v < j < n implies !holds(
                    #[trigger] lines[j],
                    "AVFoundation audio devices"@,
                ) || holds(lines[j], "AVFoundation video devices"@) by {
                    if j < n - 1 {
                        assert(front[j] == lines[j]);
                    }
                }
                assert(video_up_to(lines, v, n));
            }
        }
        if exists|v: int| #[trigger] video_up_to(lines, v, n) {
            let v = choose|v: int| #[trigger] video_up_to(lines, v, n);
            if v < n - 1 && !display::video_heading(lines.last()) {
                assert(!display::audio_heading(lines[n - 1]));
                assert(lines[v] == front[v]);
                assert forall|j: int| v < j < n - 1 implies !holds(
                    #[trigger] front[j],
                    "AVFoundation audio devices"@,
                ) || holds(front[j], "AVFoundation video devices"@) by {
                    assert(front[j] == lines[j]);
                }
                assert(video_up_to(front, v, n - 1));
            }
        }
    }
}

proof fn lemma_device_line(lines: Seq<Seq<char>>, i: int)
    requires
        0 <= i < lines.len() - 1,
    ensures
        device_line(lines.drop_last(), i) == device_line(lines, i),
{
    let front = lines.drop_last();
    assert(front[i] == lines[i]);
    assert forall|v: int| #[trigger] video_up_to(lines, v, i) == video_up_to(front, v, i) by {
        if 0 <= v < i {
            assert(lines[v] == front[v]);
            assert forall|j: int| v < j < i implies #[trigger] lines[j] == front[j] by {}
            assert forall|j: int| v < j < i implies #[trigger] front[j] == lines[j] by {}
        }
    }
    if device_line(front, i) {
        let v = choose|v: int| #[trigger] video_up_to(front, v, i);
        assert(video_up_to(lines, v, i));
    }
}

proof fn lemma_device_line_last(lines: Seq<Seq<char>>)
    requires
        lines.len() > 0,
    ensures
        device_line(lines, lines.len() - 1) <==> !display::video_heading(lines.last())
            && !display::audio_heading(lines.last()) && display::in_video_section(lines.drop_last())
            && text::contains_text(lines.last(), "Capture screen"@) && display::device_number(
            lines.last(),
        ) is Some,
{
    let front = lines.drop_last();
    let n = lines.len() - 1;
    lemma_section(front);
    lemma_holds(lines.last(), "AVFoundation video devices"@);
    lemma_holds(lines.last(), "AVFoundation audio devices"@);
    lemma_holds(lines.last(), "Capture screen"@);
    assert forall|v: int| #[trigger] video_up_to(lines, v, n) == video_up_to(front, v, n) by {
        if 0 <= v < n {
            assert(lines[v] == front[v]);
            assert forall|j: int| v < j < n implies #[trigger] lines[j] == front[j] by {}
            assert forall|j: int| v < j < n implies #[trigger] front[j] == lines[j] by {}
        }
    }
    if display::in_video_section(front) {
        let v = choose|v: int| #[trigger] video_up_to(front, v, n);
        assert(video_up_to(lines, v, n));
    }
}

/// The resolutions of a report are those of its lines, in order.
pub proof fn resolutions_are_read_line_by_line(front: Seq<Seq<char>>, line: Seq<char>)
    ensures
        display::resolutions_in(front.push(line)) == display::resolutions_in(front)
            + match display::resolution_in(line) {
            Some(size) => seq![size],
            None => Seq::<(nat, nat)>::empty(),
        },
        display::resolutions_in(Seq::empty()).len() == 0,
        display::profiled(None).len() == 0,
        forall|report: Seq<char>|
            #[trigger] display::profiled(Some(report)) == display::resolutions_in(
                text::lines_of(report),
            ),
{
    assert(front.push(line).drop_last() =~= front);
    if display::resolution_in(line) is Some {
        assert(display::resolutions_in(front.push(line)) =~= display::resolutions_in(front)
            + seq![display::resolution_in(line)->0]);
    } else {
        assert(display::resolutions_in(front.push(line)) =~= display::resolutions_in(front)
            + Seq::empty());
    }
}

/// What is listed is read from what the platform reports: the adapters on
/// Windows, the lines of xrandr on Linux, the lines of ffmpeg with the sizes of
/// the profiler on macOS. There is no list where that could not be had.
pub proof fn lists_are_read_from_the_reports(
    adapters: Vec<Vec<OutputDesc>>,
    printed: String,
    report: Option<String>,
    reason: String,
)
    ensures
        DisplaySource::Windows(Ok(adapters)).listed() == Ok::<Seq<DisplayView>, Seq<char>>(
            display::displays_at_adapters(adapters@),
        ),
        DisplaySource::Linux(XrandrRun::Printed(printed)).listed() == Ok::<
            Seq<DisplayView>,
            Seq<char>,
        >(display::xrandr_displays(text::lines_of(printed@))),
        DisplaySource::MacOs(DeviceListing::Printed(printed), report).listed() == Ok::<
            Seq<DisplayView>,
            Seq<char>,
        >(
            display::screens_in(
                text::lines_of(printed@),
                match report {
                    Some(r) => display::resolutions_in(text::lines_of(r@)),
                    None => Seq::empty(),
                },
            ),
        ),
        DisplaySource::Windows(Err(reason)).listed() is Err,
        DisplaySource::Linux(XrandrRun::NotRun(reason)).listed() is Err,
        DisplaySource::Linux(XrandrRun::Failed).listed() is Err,
        DisplaySource::MacOs(DeviceListing::NoFfmpeg, report).listed() is Err,
        DisplaySource::MacOs(DeviceListing::NotRun(reason), report).listed() is Err,
        DisplaySource::Unsupported.listed() is Err,
{
}

// ---------------------------------------------------------------------------
// Choosing one
// ---------------------------------------------------------------------------

/// The target is that of the display: its name, its size and its output.
pub open spec fn stands_for(target: TargetView, d: DisplayView) -> bool {
    &&& target.name == d.name
    &&& target.width == d.width
    &&& target.height == d.height
    &&& target.adapter_output_idx == d.adapter_output_idx
}

/// The target made of a display is that of the display.
pub proof fn targets_stand_for_their_displays(d: DisplayInfo)
    ensures
        stands_for(d@.target(), d@),
        stands_for(
            <DisplayTarget as vstd::std_specs::convert::FromSpec<DisplayInfo>>::from_spec(d)@,
            d@,
        ),
{
}

/// A lookup finds the first display that meets the condition.
proof fn lemma_first(displays: Seq<DisplayView>, p: spec_fn(DisplayView) -> bool, i: int)
    requires
        0 <= i < displays.len(),
        p(displays[i]),
        forall|j: int| 0 <= j < i ==> !p(#[trigger] displays[j]),
    ensures
        display::first_display(displays, p) == Some(displays[i]),
    decreases displays.len(),
{
    if i > 0 {
        assert(!p(displays[0]));
        let rest = displays.skip(1);
        assert forall|j: int| 0 <= j < i - 1 implies !p(#[trigger] rest[j]) by {
            assert(rest[j] == displays[j + 1]);
        }
        lemma_first(rest, p, i - 1);
    }
}

/// `display://primary` is the first display that is primary.
pub proof fn primary_uri_finds_the_primary_display(displays: Seq<DisplayView>, i: int)
    requires
        0 <= i < displays.len(),
        displays[i].is_primary,
        forall|j: int| 0 <= j < i ==> !(#[trigger] displays[j]).is_primary,
    ensures
        display::resolved("display://primary"@, displays) matches Ok(target) && stands_for(
            target,
            displays[i],
        ),
{
    let uri = "display://primary"@;
    reveal_strlit("display://primary");
    reveal_strlit("display://");
    reveal_strlit("primary");
    assert(uri.subrange(0, 10) =~= "display://"@);
    assert(uri.skip(10) =~= "primary"@);
    lemma_first(displays, display::primary(), i);
}

/// `display://name/` and a name is the first display with just that name, and so
/// is the lookup by name.
pub proof fn name_uri_finds_the_name(displays: Seq<DisplayView>, i: int)
    requires
        0 <= i < displays.len(),
        forall|j: int| 0 <= j < i ==> (#[trigger] displays[j]).name != displays[i].name,
    ensures
        display::resolved("display://name/"@ + displays[i].name, displays) matches Ok(target)
            && stands_for(target, displays[i]),
        display::first_display(displays, display::with_name(displays[i].name)) == Some(
            displays[i],
        ),
{
    display::name_uri_agrees_with_lookup(displays, displays[i].name);
    lemma_first(displays, display::with_name(displays[i].name), i);
}

/// `display://index/` and a number is the entry of the list with that number.
pub proof fn index_uri_finds_the_entry(displays: Seq<DisplayView>, i: nat)
    requires
        i < displays.len(),
        i <= usize::MAX,
    ensures
        display::resolved("display://index/"@ + text::decimal(i), displays) matches Ok(target)
            && stands_for(target, displays[i as int]),
{
    display::index_uri_finds_each(displays, i);
}

/// A URI comes to one of the displays or to none: to one that is primary, that
/// has the name behind `name/`, or that is the entry with the number behind
/// `index/`. All other texts are refused.
pub proof fn a_uri_names_a_listed_display(uri: Seq<char>, displays: Seq<DisplayView>)
    ensures
        display::resolved(uri, displays) matches Ok(target) ==> exists|i: int|
            {
                &&& 0 <= i < displays.len()
                &&& stands_for(target, #[trigger] displays[i])
                &&& uri == "display://primary"@ && displays[i].is_primary || uri
                    == "display://name/"@ + displays[i].name || "display://index/"@.is_prefix_of(
                    uri,
                ) && text::parsed(uri.skip(16), usize::MAX as nat) == Some(i as nat)
            },
{
    reveal_strlit("display://primary");
    reveal_strlit("display://name/");
    reveal_strlit("display://index/");
    reveal_strlit("display://");
    reveal_strlit("primary");
    reveal_strlit("name/");
    reveal_strlit("index/");
    if display::resolved(uri, displays) is Ok {
        let target = display::resolved(uri, displays)->Ok_0;
        let rest = uri.skip(10);
        assert(uri.subrange(0, 10) == "display://"@);
        assert(uri =~= "display://"@ + rest);
        if rest == "primary"@ {
            display::lookup_is_exact(displays, display::primary());
            let d = display::first_display(displays, display::primary())->0;
            let i = choose|i: int| 0 <= i < displays.len() && #[trigger] displays[i] == d;
            assert(uri =~= "display://primary"@);
            assert(stands_for(target, displays[i]));
        } else if "index/"@.is_prefix_of(rest) {
            assert(rest.subrange(0, 6) == "index/"@);
            assert(rest =~= "index/"@ + rest.skip(6));
            assert(uri.subrange(0, 16) =~= "display://index/"@);
            assert(uri.skip(16) =~= rest.skip(6));
            let n = text::parsed(rest.skip(6), usize::MAX as nat)->0;
            assert(stands_for(target, displays[n as int]));
        } else {
            assert(rest.subrange(0, 5) == "name/"@);
            let name = rest.skip(5);
            assert(rest =~= "name/"@ + name);
            display::lookup_is_exact(displays, display::with_name(name));
            let d = display::first_display(displays, display::with_name(name))->0;
            let i = choose|i: int| 0 <= i < displays.len() && #[trigger] displays[i] == d;
            assert(uri =~= "display://name/"@ + name);
            assert(stands_for(target, displays[i]));
        }
    }
}

} // verus!
