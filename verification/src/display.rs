//! Displays: reading the list of them from what each platform reports, and
//! choosing one by a `display://` URI.
use vstd::prelude::*;
use vstd::string::*;

use crate::error;
use crate::error::Error;
use crate::text;
use crate::utf16;

verus! {

/// One display.
#[derive(Debug, PartialEq)]
pub struct DisplayInfo {
    pub index: usize,
    pub name: String,
    pub width: u32,
    pub height: u32,
    pub is_primary: bool,
    /// False for virtual displays that cannot be captured.
    pub can_capture: bool,
    /// On Windows the position among the outputs of the display's adapter,
    /// which is what ffmpeg's `ddagrab` takes; elsewhere the number by which
    /// the capture device is told apart.
    pub adapter_output_idx: u32,
}

/// A display in the model.
#[verifier::ext_equal]
pub struct DisplayView {
    pub index: nat,
    pub name: Seq<char>,
    pub width: u32,
    pub height: u32,
    pub is_primary: bool,
    pub can_capture: bool,
    pub adapter_output_idx: u32,
}

impl View for DisplayInfo {
    type V = DisplayView;

    open spec fn view(&self) -> DisplayView {
        DisplayView {
            index: self.index as nat,
            name: self.name@,
            width: self.width,
            height: self.height,
            is_primary: self.is_primary,
            can_capture: self.can_capture,
            adapter_output_idx: self.adapter_output_idx,
        }
    }
}

impl Clone for DisplayInfo {
    fn clone(&self) -> (r: Self)
        ensures
            r@ == self@,
    {
        DisplayInfo {
            index: self.index,
            name: self.name.clone(),
            width: self.width,
            height: self.height,
            is_primary: self.is_primary,
            can_capture: self.can_capture,
            adapter_output_idx: self.adapter_output_idx,
        }
    }
}

/// What to capture, as the encoding pipeline takes it.
#[derive(Debug, PartialEq)]
pub struct DisplayTarget {
    pub name: String,
    pub width: u32,
    pub height: u32,
    pub adapter_output_idx: u32,
}

/// A capture target in the model.
#[verifier::ext_equal]
pub struct TargetView {
    pub name: Seq<char>,
    pub width: u32,
    pub height: u32,
    pub adapter_output_idx: u32,
}

impl View for DisplayTarget {
    type V = TargetView;

    open spec fn view(&self) -> TargetView {
        TargetView {
            name: self.name@,
            width: self.width,
            height: self.height,
            adapter_output_idx: self.adapter_output_idx,
        }
    }
}

impl Clone for DisplayTarget {
    fn clone(&self) -> (r: Self)
        ensures
            r@ == self@,
    {
        DisplayTarget {
            name: self.name.clone(),
            width: self.width,
            height: self.height,
            adapter_output_idx: self.adapter_output_idx,
        }
    }
}

impl DisplayView {
    /// The capture target of a display.
    pub open spec fn target(self) -> TargetView {
        TargetView {
            name: self.name,
            width: self.width,
            height: self.height,
            adapter_output_idx: self.adapter_output_idx,
        }
    }
}

impl From<DisplayInfo> for DisplayTarget {
    fn from(d: DisplayInfo) -> (r: DisplayTarget) {
        DisplayTarget {
            name: d.name,
            width: d.width,
            height: d.height,
            adapter_output_idx: d.adapter_output_idx,
        }
    }
}

impl vstd::std_specs::convert::FromSpecImpl<DisplayInfo> for DisplayTarget {
    open spec fn obeys_from_spec() -> bool {
        true
    }

    open spec fn from_spec(d: DisplayInfo) -> DisplayTarget {
        DisplayTarget {
            name: d.name,
            width: d.width,
            height: d.height,
            adapter_output_idx: d.adapter_output_idx,
        }
    }
}

/// The views of a list of displays.
pub open spec fn views(v: Seq<DisplayInfo>) -> Seq<DisplayView> {
    v.map_values(|d: DisplayInfo| d@)
}

// ---------------------------------------------------------------------------
// Windows: the outputs of the graphics adapters
// ---------------------------------------------------------------------------

/// One output of a graphics adapter, as DXGI describes it.
#[derive(Debug)]
pub struct OutputDesc {
    pub attached: bool,
    /// The device name in UTF-16, up to the first zero or the end.
    pub device_name: Vec<u16>,
    pub left: i32,
    pub top: i32,
    pub right: i32,
    pub bottom: i32,
    /// Whether the output could be duplicated on its adapter's device.
    pub can_capture: bool,
}

impl OutputDesc {
    /// The extent of the output fits its coordinates' type.
    pub open spec fn valid(self) -> bool {
        &&& i32::MIN <= self.right - self.left <= i32::MAX
        &&& i32::MIN <= self.bottom - self.top <= i32::MAX
    }
}

/// The units before the first zero.
pub open spec fn before_nul(units: Seq<u16>) -> Seq<u16>
    decreases units.len(),
{
    if units.len() == 0 || units[0] == 0 {
        Seq::empty()
    } else {
        seq![units[0]] + before_nul(units.skip(1))
    }
}

/// The display at output `position` of an adapter, as entry `index` of the list.
pub open spec fn output_display(output: OutputDesc, position: nat, index: nat) -> DisplayView {
    DisplayView {
        index,
        name: utf16::decoded(before_nul(output.device_name@)),
        width: (output.right - output.left) as u32,
        height: (output.bottom - output.top) as u32,
        is_primary: output.left == 0 && output.top == 0,
        can_capture: output.can_capture,
        adapter_output_idx: position as u32,
    }
}

/// The displays at the outputs of one adapter, with `start` entries before
/// them in the list. Outputs that are not part of the desktop are left out.
pub open spec fn displays_at_outputs(outputs: Seq<OutputDesc>, start: nat) -> Seq<DisplayView>
    decreases outputs.len(),
{
    if outputs.len() == 0 {
        Seq::empty()
    } else {
        let before = displays_at_outputs(outputs.drop_last(), start);
        if outputs.last().attached {
            before.push(
                output_display(
                    outputs.last(),
                    (outputs.len() - 1) as nat,
                    start + before.len(),
                ),
            )
        } else {
            before
        }
    }
}

/// The displays of all adapters.
pub open spec fn displays_at_adapters(adapters: Seq<Vec<OutputDesc>>) -> Seq<DisplayView>
    decreases adapters.len(),
{
    if adapters.len() == 0 {
        Seq::empty()
    } else {
        let before = displays_at_adapters(adapters.drop_last());
        before + displays_at_outputs(adapters.last()@, before.len())
    }
}

/// Every output that is part of the desktop has a valid extent, and no adapter
/// has more outputs than can be numbered.
pub open spec fn adapters_valid(adapters: Seq<Vec<OutputDesc>>) -> bool {
    forall|i: int|
        #![trigger adapters[i]]
        0 <= i < adapters.len() ==> adapters[i]@.len() <= u32::MAX && forall|j: int|
            #![trigger adapters[i]@[j]]
            0 <= j < adapters[i]@.len() && adapters[i]@[j].attached ==> adapters[i]@[j].valid()
}

fn device_name(units: &Vec<u16>) -> (r: String)
    ensures
        r@ == utf16::decoded(before_nul(units@)),
{
    let mut name: Vec<u16> = Vec::new();
    let mut i: usize = 0;
    assert(units@.skip(0) =~= units@);
    assert(name@ + before_nul(units@) =~= before_nul(units@));
    while i < units.len() && units[i] != 0
        invariant
            0 <= i <= units@.len(),
            name@ + before_nul(units@.skip(i as int)) == before_nul(units@),
        decreases units@.len() - i,
    {
        let ghost rest = units@.skip(i as int);
        assert(rest.skip(1) =~= units@.skip(i + 1));
        let ghost before = name@;
        name.push(units[i]);
        assert(name@ + before_nul(units@.skip(i + 1)) =~= before + before_nul(rest));
        i += 1;
    }
    assert(name@ =~= before_nul(units@));
    utf16::from_utf16_lossy(name.as_slice())
}

/// Appends the displays at the outputs of one adapter.
fn push_outputs(displays: &mut Vec<DisplayInfo>, outputs: &Vec<OutputDesc>)
    requires
        outputs@.len() <= u32::MAX,
        forall|j: int|
            0 <= j < outputs@.len() && (#[trigger] outputs@[j]).attached ==> outputs@[j].valid(),
    ensures
        views(final(displays)@) == views(old(displays)@) + displays_at_outputs(
            outputs@,
            old(displays)@.len(),
        ),
{
    let ghost start = displays@;
    let mut position: u32 = 0;
    assert(outputs@.take(0) =~= Seq::empty());
    assert(views(displays@) + displays_at_outputs(outputs@.take(0), start.len()) =~= views(
        displays@,
    ));
    while (position as usize) < outputs.len()
        invariant
            0 <= position <= outputs@.len() <= u32::MAX,
            forall|j: int|
            0 <= j < outputs@.len() && (#[trigger] outputs@[j]).attached ==> outputs@[j].valid(),
            views(displays@) == views(start) + displays_at_outputs(
                outputs@.take(position as int),
                start.len(),
            ),
        decreases outputs@.len() - position,
    {
        let output = &outputs[position as usize];
        let ghost upto = outputs@.take(position + 1);
        assert(upto.drop_last() =~= outputs@.take(position as int));
        assert(upto.last() == output);
        let ghost before = displays@;
        assert(views(before).len() == before.len());
        if output.attached {
            assert(output.valid());
            let display = DisplayInfo {
                index: displays.len(),
                name: device_name(&output.device_name),
                width: (output.right - output.left) as u32,
                height: (output.bottom - output.top) as u32,
                is_primary: output.left == 0 && output.top == 0,
                can_capture: output.can_capture,
                adapter_output_idx: position,
            };
            displays.push(display);
            assert(views(displays@) =~= views(before).push(display@));
            assert(display@ =~= output_display(*output, position as nat, before.len()));
        }
        assert(views(displays@) =~= views(start) + displays_at_outputs(upto, start.len()));
        position += 1;
    }
    assert(outputs@.take(position as int) =~= outputs@);
}

fn list_adapters(adapters: &Vec<Vec<OutputDesc>>) -> (r: Vec<DisplayInfo>)
    requires
        adapters_valid(adapters@),
    ensures
        views(r@) == displays_at_adapters(adapters@),
{
    let mut displays: Vec<DisplayInfo> = Vec::new();
    let mut i: usize = 0;
    assert(views(displays@) =~= displays_at_adapters(adapters@.take(0)));
    while i < adapters.len()
        invariant
            0 <= i <= adapters@.len(),
            adapters_valid(adapters@),
            views(displays@) == displays_at_adapters(adapters@.take(i as int)),
        decreases adapters@.len() - i,
    {
        assert(adapters@.take(i + 1).drop_last() =~= adapters@.take(i as int));
        assert(views(displays@).len() == displays@.len());
        push_outputs(&mut displays, &adapters[i]);
        i += 1;
    }
    assert(adapters@.take(i as int) =~= adapters@);
    displays
}

// ---------------------------------------------------------------------------
// Linux: what xrandr prints
// ---------------------------------------------------------------------------

/// A word such as `1920x1080+0+0`.
pub open spec fn geometry(word: Seq<char>) -> bool {
    word.len() > 0 && text::digit(word[0]) && word.contains('x') && word.contains('+')
}

/// The first geometry among the words.
pub open spec fn first_geometry(words: Seq<Seq<char>>) -> Option<Seq<char>>
    decreases words.len(),
{
    if words.len() == 0 {
        None
    } else if geometry(words[0]) {
        Some(words[0])
    } else {
        first_geometry(words.skip(1))
    }
}

/// The width and height before the first plus sign of a geometry.
pub open spec fn size_in(word: Seq<char>) -> Option<(nat, nat)> {
    match text::split_at_first(word, '+') {
        Some((size, _)) => match text::split_at_first(size, 'x') {
            Some((w, h)) => match (
                text::parsed(w, u32::MAX as nat),
                text::parsed(h, u32::MAX as nat),
            ) {
                (Some(width), Some(height)) => Some((width, height)),
                _ => None,
            },
            None => None,
        },
        None => None,
    }
}

/// The display that a line of `xrandr --current` describes, as entry `index`
/// of the list. The line is that of a connected output with a geometry.
pub open spec fn xrandr_display(line: Seq<char>, index: nat) -> Option<DisplayView> {
    let words = text::words_of(line);
    let rest = words.skip(1);
    if text::contains_text(line, " connected"@) && words.len() > 0 && first_geometry(rest) is Some {
        match size_in(first_geometry(rest)->0) {
            Some((width, height)) => Some(
                DisplayView {
                    index,
                    name: words[0],
                    width: width as u32,
                    height: height as u32,
                    is_primary: rest.contains("primary"@),
                    can_capture: true,
                    adapter_output_idx: index as u32,
                },
            ),
            None => None,
        }
    } else {
        None
    }
}

/// The displays that the lines describe.
pub open spec fn xrandr_displays(lines: Seq<Seq<char>>) -> Seq<DisplayView>
    decreases lines.len(),
{
    if lines.len() == 0 {
        Seq::empty()
    } else {
        let before = xrandr_displays(lines.drop_last());
        match xrandr_display(lines.last(), before.len()) {
            Some(d) => before.push(d),
            None => before,
        }
    }
}

fn is_geometry(word: &[char]) -> (r: bool)
    ensures
        r == geometry(word@),
{
    if word.len() == 0 || !text::is_digit(word[0]) {
        return false;
    }
    text::has_char(word, 'x') && text::has_char(word, '+')
}

fn read_size(word: &[char]) -> (r: Option<(u32, u32)>)
    ensures
        match r {
            Some((w, h)) => size_in(word@) == Some((w as nat, h as nat)),
            None => size_in(word@) is None,
        },
{
    match text::split_once(word, '+') {
        Some((size, _offsets)) => match text::split_once(size, 'x') {
            Some((w, h)) => match (
                text::parse_number(w, u32::MAX as u64),
                text::parse_number(h, u32::MAX as u64),
            ) {
                (Some(width), Some(height)) => Some((width as u32, height as u32)),
                _ => None,
            },
            None => None,
        },
        None => None,
    }
}

fn parse_xrandr_line(line: &[char], index: usize) -> (r: Option<DisplayInfo>)
    ensures
        match r {
            Some(d) => xrandr_display(line@, index as nat) == Some(d@),
            None => xrandr_display(line@, index as nat) is None,
        },
{
    if !text::contains(line, text::to_chars(" connected").as_slice()) {
        return None;
    }
    let words = text::words(line);
    let ghost all = text::rows(words@);
    if words.len() == 0 {
        return None;
    }
    let primary = text::to_chars("primary");
    let mut is_primary = false;
    let mut size_word: Option<usize> = None;
    let mut i: usize = 1;
    while i < words.len()
        invariant
            1 <= i <= words@.len(),
            all == text::rows(words@),
            primary@ == "primary"@,
            is_primary == exists|k: int| 1 <= k < i && #[trigger] all[k] == "primary"@,
            match size_word {
                Some(k) => 1 <= k < i && first_geometry(all.skip(1)) == Some(words@[k as int]@),
                None => first_geometry(all.skip(1)) == first_geometry(all.skip(i as int)),
            },
        decreases words@.len() - i,
    {
        let word = words[i].as_slice();
        assert(all[i as int] == word@);
        if word.len() == primary.len() && text::is_at(word, primary.as_slice(), 0) {
            assert(word@.subrange(0, word@.len() as int) =~= word@);
            is_primary = true;
        } else {
            assert(word@ == primary@ ==> word@.subrange(0, word@.len() as int) =~= primary@);
        }
        assert(all.skip(i as int).skip(1) =~= all.skip(i + 1));
        assert(all.skip(i as int)[0] == word@);
        if size_word.is_none() && is_geometry(word) {
            size_word = Some(i);
        }
        i += 1;
    }
    let ghost rest = all.skip(1);
    assert(is_primary == rest.contains("primary"@)) by {
        if is_primary {
            let k = choose|k: int| 1 <= k < all.len() && #[trigger] all[k] == "primary"@;
            assert(rest[k - 1] == "primary"@);
        }
        if rest.contains("primary"@) {
            let k = choose|k: int| 0 <= k < rest.len() && rest[k] == "primary"@;
            assert(all[k + 1] == "primary"@);
        }
    }
    match size_word {
        Some(k) => match read_size(words[k].as_slice()) {
            Some((width, height)) => {
                let display = DisplayInfo {
                    index,
                    name: text::from_chars(words[0].as_slice()),
                    width,
                    height,
                    is_primary,
                    can_capture: true,
                    adapter_output_idx: index as u32,
                };
                assert(all[0] == words@[0]@);
                assert(xrandr_display(line@, index as nat)->0 =~= display@);
                Some(display)
            },
            None => None,
        },
        None => {
            assert(all.skip(i as int) =~= Seq::empty());
            None
        },
    }
}

fn parse_xrandr(stdout: &str) -> (r: Vec<DisplayInfo>)
    ensures
        views(r@) == xrandr_displays(text::lines_of(stdout@)),
{
    let lines = text::lines(text::to_chars(stdout).as_slice());
    let ghost all = text::rows(lines@);
    let mut displays: Vec<DisplayInfo> = Vec::new();
    let mut i: usize = 0;
    assert(views(displays@) =~= xrandr_displays(all.take(0)));
    while i < lines.len()
        invariant
            0 <= i <= lines@.len(),
            all == text::rows(lines@),
            views(displays@) == xrandr_displays(all.take(i as int)),
        decreases lines@.len() - i,
    {
        assert(all.take(i + 1).drop_last() =~= all.take(i as int));
        assert(all.take(i + 1).last() == lines@[i as int]@);
        let ghost before = displays@;
        assert(views(before).len() == before.len());
        if let Some(display) = parse_xrandr_line(lines[i].as_slice(), displays.len()) {
            displays.push(display);
            assert(views(displays@) =~= views(before).push(display@));
        }
        i += 1;
    }
    assert(all.take(i as int) =~= all);
    displays
}

// ---------------------------------------------------------------------------
// macOS: ffmpeg's device list and the system profiler
// ---------------------------------------------------------------------------

/// The headings in ffmpeg's list of AVFoundation devices.
pub open spec fn video_heading(line: Seq<char>) -> bool {
    text::contains_text(line, "AVFoundation video devices"@)
}

pub open spec fn audio_heading(line: Seq<char>) -> bool {
    text::contains_text(line, "AVFoundation audio devices"@)
}

/// After these lines the list of video devices goes on.
pub open spec fn in_video_section(lines: Seq<Seq<char>>) -> bool
    decreases lines.len(),
{
    if lines.len() == 0 {
        false
    } else if video_heading(lines.last()) {
        true
    } else if audio_heading(lines.last()) {
        false
    } else {
        in_video_section(lines.drop_last())
    }
}

/// The number in the last pair of brackets: a device line is such as
/// `[AVFoundation indev @ 0x0] [1] Capture screen 0`.
pub open spec fn device_number(line: Seq<char>) -> Option<nat> {
    match text::after_last(line, '[') {
        Some(tail) => match text::split_at_first(tail, ']') {
            Some((number, _)) => text::parsed(number, u32::MAX as nat),
            None => None,
        },
        None => None,
    }
}

/// The width and height in a line such as `Resolution: 1920 x 1080 Retina`:
/// the first two numbers in it.
pub open spec fn resolution_in(line: Seq<char>) -> Option<(nat, nat)> {
    let t = text::trimmed_end(text::trimmed_start(line));
    let runs = text::digit_runs_of(t.skip("Resolution:"@.len() as int));
    if "Resolution:"@.is_prefix_of(t) && runs.len() >= 2 {
        match (text::parsed(runs[0], u32::MAX as nat), text::parsed(runs[1], u32::MAX as nat)) {
            (Some(w), Some(h)) => Some((w, h)),
            _ => None,
        }
    } else {
        None
    }
}

/// The resolutions that the lines of the profiler's report give, in order.
pub open spec fn resolutions_in(lines: Seq<Seq<char>>) -> Seq<(nat, nat)>
    decreases lines.len(),
{
    if lines.len() == 0 {
        Seq::empty()
    } else {
        let before = resolutions_in(lines.drop_last());
        match resolution_in(lines.last()) {
            Some(size) => before.push(size),
            None => before,
        }
    }
}

/// The resolution of the screen at a position of the list: the one reported
/// for it, else the first one reported, else full HD.
pub open spec fn resolution_at(resolutions: Seq<(nat, nat)>, position: nat) -> (nat, nat) {
    if position < resolutions.len() {
        resolutions[position as int]
    } else if resolutions.len() > 0 {
        resolutions[0]
    } else {
        (1920, 1080)
    }
}

/// The screen with a device number.
pub open spec fn screen_display(number: nat, size: (nat, nat)) -> DisplayView {
    DisplayView {
        index: number,
        name: "Capture screen "@ + text::decimal(number),
        width: size.0 as u32,
        height: size.1 as u32,
        is_primary: number == 0,
        can_capture: true,
        adapter_output_idx: number as u32,
    }
}

/// The screens among the video devices in ffmpeg's list.
pub open spec fn screens_in(lines: Seq<Seq<char>>, resolutions: Seq<(nat, nat)>) -> Seq<DisplayView>
    decreases lines.len(),
{
    if lines.len() == 0 {
        Seq::empty()
    } else {
        let line = lines.last();
        let before = screens_in(lines.drop_last(), resolutions);
        if !video_heading(line) && !audio_heading(line) && in_video_section(lines.drop_last())
            && text::contains_text(line, "Capture screen"@) && device_number(line) is Some {
            before.push(
                screen_display(device_number(line)->0, resolution_at(resolutions, before.len())),
            )
        } else {
            before
        }
    }
}

/// Resolutions in the model.
pub open spec fn sizes(v: Seq<(u32, u32)>) -> Seq<(nat, nat)> {
    v.map_values(|p: (u32, u32)| (p.0 as nat, p.1 as nat))
}

/// The resolutions that the profiler reports; none where it could not be run.
pub open spec fn profiled(report: Option<Seq<char>>) -> Seq<(nat, nat)> {
    match report {
        Some(s) => resolutions_in(text::lines_of(s)),
        None => Seq::empty(),
    }
}

fn read_resolution(line: &[char]) -> (r: Option<(u32, u32)>)
    ensures
        match r {
            Some((w, h)) => resolution_in(line@) == Some((w as nat, h as nat)),
            None => resolution_in(line@) is None,
        },
{
    let t = text::trim(line);
    let prefix = text::to_chars("Resolution:");
    if !text::has_prefix(t, prefix.as_slice()) {
        return None;
    }
    let rest = vstd::slice::slice_subrange(t, prefix.len(), t.len());
    let runs = text::digit_runs(rest);
    assert(text::rows(runs@).len() == runs@.len());
    if runs.len() < 2 {
        return None;
    }
    assert(text::rows(runs@)[0] == runs@[0]@ && text::rows(runs@)[1] == runs@[1]@);
    match (
        text::parse_number(runs[0].as_slice(), u32::MAX as u64),
        text::parse_number(runs[1].as_slice(), u32::MAX as u64),
    ) {
        (Some(w), Some(h)) => Some((w as u32, h as u32)),
        _ => None,
    }
}

/// The resolutions that the text report of the system profiler gives.
pub fn query_display_resolutions(report: &Option<String>) -> (r: Vec<(u32, u32)>)
    ensures
        sizes(r@) == profiled(
            match *report {
                Some(s) => Some(s@),
                None => None,
            },
        ),
{
    let mut r: Vec<(u32, u32)> = Vec::new();
    match report {
        Some(stdout) => {
            let lines = text::lines(text::to_chars(stdout.as_str()).as_slice());
            let ghost all = text::rows(lines@);
            let mut i: usize = 0;
            assert(sizes(r@) =~= resolutions_in(all.take(0)));
            while i < lines.len()
                invariant
                    0 <= i <= lines@.len(),
                    all == text::rows(lines@),
                    sizes(r@) == resolutions_in(all.take(i as int)),
                decreases lines@.len() - i,
            {
                assert(all.take(i + 1).drop_last() =~= all.take(i as int));
                assert(all.take(i + 1).last() == lines@[i as int]@);
                let ghost before = r@;
                if let Some(size) = read_resolution(lines[i].as_slice()) {
                    r.push(size);
                    assert(sizes(r@) =~= sizes(before).push((size.0 as nat, size.1 as nat)));
                }
                i += 1;
            }
            assert(all.take(i as int) =~= all);
        },
        None => {
            assert(sizes(r@) =~= Seq::empty());
        },
    }
    r
}

fn read_device_number(line: &[char]) -> (r: Option<u32>)
    ensures
        match r {
            Some(n) => device_number(line@) == Some(n as nat),
            None => device_number(line@) is None,
        },
{
    match text::split_last(line, '[') {
        Some(tail) => match text::split_once(tail, ']') {
            Some((number, _)) => match text::parse_number(number, u32::MAX as u64) {
                Some(n) => Some(n as u32),
                None => None,
            },
            None => None,
        },
        None => None,
    }
}

fn pick_resolution(resolutions: &Vec<(u32, u32)>, position: usize) -> (r: (u32, u32))
    ensures
        (r.0 as nat, r.1 as nat) == resolution_at(sizes(resolutions@), position as nat),
{
    if position < resolutions.len() {
        resolutions[position]
    } else if resolutions.len() > 0 {
        resolutions[0]
    } else {
        (1920, 1080)
    }
}

fn parse_screens(stderr: &str, resolutions: &Vec<(u32, u32)>) -> (r: Vec<DisplayInfo>)
    ensures
        views(r@) == screens_in(text::lines_of(stderr@), sizes(resolutions@)),
{
    let lines = text::lines(text::to_chars(stderr).as_slice());
    let ghost all = text::rows(lines@);
    let ghost known = sizes(resolutions@);
    let video = text::to_chars("AVFoundation video devices");
    let audio = text::to_chars("AVFoundation audio devices");
    let screen = text::to_chars("Capture screen");
    let mut displays: Vec<DisplayInfo> = Vec::new();
    let mut in_section = false;
    let mut i: usize = 0;
    assert(views(displays@) =~= screens_in(all.take(0), known));
    while i < lines.len()
        invariant
            0 <= i <= lines@.len(),
            all == text::rows(lines@),
            known == sizes(resolutions@),
            video@ == "AVFoundation video devices"@,
            audio@ == "AVFoundation audio devices"@,
            screen@ == "Capture screen"@,
            in_section == in_video_section(all.take(i as int)),
            views(displays@) == screens_in(all.take(i as int), known),
        decreases lines@.len() - i,
    {
        let line = lines[i].as_slice();
        assert(all.take(i + 1).drop_last() =~= all.take(i as int));
        assert(all.take(i + 1).last() == line@);
        let ghost before = displays@;
        assert(views(before).len() == before.len());
        if text::contains(line, video.as_slice()) {
            in_section = true;
        } else if text::contains(line, audio.as_slice()) {
            in_section = false;
        } else if in_section && text::contains(line, screen.as_slice()) {
            if let Some(number) = read_device_number(line) {
                let (width, height) = pick_resolution(resolutions, displays.len());
                let mut name = "Capture screen ".to_owned();
                text::push_decimal(&mut name, number as u64);
                let display = DisplayInfo {
                    index: number as usize,
                    name,
                    width,
                    height,
                    is_primary: number == 0,
                    can_capture: true,
                    adapter_output_idx: number,
                };
                displays.push(display);
                assert(display@ =~= screen_display(
                    number as nat,
                    resolution_at(known, before.len()),
                ));
                assert(views(displays@) =~= views(before).push(display@));
            }
        }
        i += 1;
    }
    assert(all.take(i as int) =~= all);
    displays
}

// ---------------------------------------------------------------------------
// The list of displays
// ---------------------------------------------------------------------------

/// What became of running `xrandr --current`.
pub enum XrandrRun {
    /// It could not be started, for this reason.
    NotRun(String),
    /// It ended with a non-zero status.
    Failed,
    /// What it printed to its standard output.
    Printed(String),
}

/// What became of asking ffmpeg for its AVFoundation devices.
pub enum DeviceListing {
    /// There is no ffmpeg on the search path.
    NoFfmpeg,
    /// It could not be started, for this reason.
    NotRun(String),
    /// What it printed to its standard error. It never ends with status zero,
    /// as there is no device with an empty name.
    Printed(String),
}

/// What a platform reports about its displays.
pub enum DisplaySource {
    /// The outputs of each adapter, or why DXGI refused.
    Windows(Result<Vec<Vec<OutputDesc>>, String>),
    Linux(XrandrRun),
    /// The device list, and the profiler's report where there is one.
    MacOs(DeviceListing, Option<String>),
    Unsupported,
}

impl DisplaySource {
    /// What Windows reports stays within the types it is reported in.
    pub open spec fn valid(self) -> bool {
        match self {
            DisplaySource::Windows(Ok(adapters)) => adapters_valid(adapters@),
            _ => true,
        }
    }

    /// The displays that are reported, or the message why there is no list.
    pub open spec fn listed(self) -> Result<Seq<DisplayView>, Seq<char>> {
        match self {
            DisplaySource::Windows(Ok(adapters)) => Ok(displays_at_adapters(adapters@)),
            DisplaySource::Windows(Err(e)) => Err(e@),
            DisplaySource::Linux(XrandrRun::NotRun(e)) => Err("failed to run xrandr: "@ + e@),
            DisplaySource::Linux(XrandrRun::Failed) => Err(
                "xrandr exited with a non-zero status"@,
            ),
            DisplaySource::Linux(XrandrRun::Printed(stdout)) => Ok(
                xrandr_displays(text::lines_of(stdout@)),
            ),
            DisplaySource::MacOs(DeviceListing::NoFfmpeg, _) => Err(
                "ffmpeg not found on PATH; cannot enumerate AVFoundation devices"@,
            ),
            DisplaySource::MacOs(DeviceListing::NotRun(e), _) => Err(
                "failed to run ffmpeg for device listing: "@ + e@,
            ),
            DisplaySource::MacOs(DeviceListing::Printed(stderr), report) => Ok(
                screens_in(
                    text::lines_of(stderr@),
                    profiled(
                        match report {
                            Some(s) => Some(s@),
                            None => None,
                        },
                    ),
                ),
            ),
            DisplaySource::Unsupported => Err(
                "screen capture is not supported on this platform"@,
            ),
        }
    }
}

/// A list of displays in the model.
pub open spec fn listing(r: Result<Vec<DisplayInfo>, Error>) -> Result<
    Seq<DisplayView>,
    Seq<char>,
> {
    match r {
        Ok(v) => Ok(views(v@)),
        Err(e) => Err(e@),
    }
}

/// The displays of this machine, from what its platform reports.
pub fn enumerate_displays(source: DisplaySource) -> (r: Result<Vec<DisplayInfo>, Error>)
    requires
        source.valid(),
    ensures
        listing(r) == source.listed(),
{
    match source {
        DisplaySource::Windows(Ok(adapters)) => Ok(list_adapters(&adapters)),
        DisplaySource::Windows(Err(message)) => Err(Error { message }),
        DisplaySource::Linux(XrandrRun::NotRun(e)) => Err(
            Error::about("failed to run xrandr: ", e.as_str()),
        ),
        DisplaySource::Linux(XrandrRun::Failed) => Err(
            Error::new("xrandr exited with a non-zero status"),
        ),
        DisplaySource::Linux(XrandrRun::Printed(stdout)) => Ok(parse_xrandr(stdout.as_str())),
        DisplaySource::MacOs(DeviceListing::NoFfmpeg, _) => Err(
            Error::new("ffmpeg not found on PATH; cannot enumerate AVFoundation devices"),
        ),
        DisplaySource::MacOs(DeviceListing::NotRun(e), _) => Err(
            Error::about("failed to run ffmpeg for device listing: ", e.as_str()),
        ),
        DisplaySource::MacOs(DeviceListing::Printed(stderr), report) => {
            let resolutions = query_display_resolutions(&report);
            Ok(parse_screens(stderr.as_str(), &resolutions))
        },
        DisplaySource::Unsupported => Err(
            Error::new("screen capture is not supported on this platform"),
        ),
    }
}

// ---------------------------------------------------------------------------
// Choosing one
// ---------------------------------------------------------------------------

/// The first display for which `p` holds.
pub open spec fn first_display(
    displays: Seq<DisplayView>,
    p: spec_fn(DisplayView) -> bool,
) -> Option<DisplayView>
    decreases displays.len(),
{
    if displays.len() == 0 {
        None
    } else if p(displays[0]) {
        Some(displays[0])
    } else {
        first_display(displays.skip(1), p)
    }
}

pub open spec fn with_name(name: Seq<char>) -> spec_fn(DisplayView) -> bool {
    |d: DisplayView| d.name == name
}

pub open spec fn primary() -> spec_fn(DisplayView) -> bool {
    |d: DisplayView| d.is_primary
}

/// The position of the first display with this name, or the first primary one
/// where no name is given.
fn position_of(displays: &Vec<DisplayInfo>, name: Option<&str>) -> (r: Option<usize>)
    ensures
        ({
            let p = match name {
                Some(n) => with_name(n@),
                None => primary(),
            };
            match r {
                Some(i) => i < displays@.len() && first_display(views(displays@), p) == Some(
                    displays@[i as int]@,
                ),
                None => first_display(views(displays@), p) is None,
            }
        }),
{
    let ghost all = views(displays@);
    let ghost p = match name {
        Some(n) => with_name(n@),
        None => primary(),
    };
    let mut i: usize = 0;
    assert(all.skip(0) =~= all);
    while i < displays.len()
        invariant
            0 <= i <= displays@.len(),
            all == views(displays@),
            p == (match name {
                Some(n) => with_name(n@),
                None => primary(),
            }),
            first_display(all, p) == first_display(all.skip(i as int), p),
        decreases displays@.len() - i,
    {
        let d = &displays[i];
        assert(all.skip(i as int)[0] == d@);
        assert(all.skip(i as int).skip(1) =~= all.skip(i + 1));
        let found = match name {
            Some(n) => text::same(d.name.as_str(), n),
            None => d.is_primary,
        };
        if found {
            return Some(i);
        }
        i += 1;
    }
    None
}

/// Finds the display that has this name now. Displays that come and go change
/// the positions of the others, so a capture that starts anew looks its
/// display up again.
pub fn find_display_by_name(enumerated: Result<Vec<DisplayInfo>, Error>, name: &str) -> (r: Option<
    DisplayInfo,
>)
    ensures
        match (r, listing(enumerated)) {
            (Some(d), Ok(displays)) => first_display(displays, with_name(name@)) == Some(d@),
            (None, Ok(displays)) => first_display(displays, with_name(name@)) is None,
            (r, Err(_)) => r is None,
        },
{
    match enumerated {
        Ok(mut displays) => match position_of(&displays, Some(name)) {
            Some(i) => Some(displays.swap_remove(i)),
            None => None,
        },
        Err(_) => None,
    }
}

/// The display that a URI names among these, or the message why there is none.
pub open spec fn resolved(uri: Seq<char>, displays: Seq<DisplayView>) -> Result<
    TargetView,
    Seq<char>,
> {
    let rest = uri.skip("display://"@.len() as int);
    let index = rest.skip("index/"@.len() as int);
    let name = rest.skip("name/"@.len() as int);
    if !"display://"@.is_prefix_of(uri) {
        Err("not a display:// URI: "@ + uri)
    } else if rest == "primary"@ {
        match first_display(displays, primary()) {
            Some(d) => Ok(d.target()),
            None => Err("no primary display found"@),
        }
    } else if "index/"@.is_prefix_of(rest) {
        match text::parsed(index, usize::MAX as nat) {
            Some(n) => if n < displays.len() {
                Ok(displays[n as int].target())
            } else {
                Err("no display with index "@ + text::decimal(n))
            },
            None => Err("invalid display index in URI: "@ + index),
        }
    } else if "name/"@.is_prefix_of(rest) {
        match first_display(displays, with_name(name)) {
            Some(d) => Ok(d.target()),
            None => Err("no display named "@ + name),
        }
    } else {
        Err("unrecognized display:// URI form: "@ + uri)
    }
}

/// What a URI comes to once the displays were listed, or could not be.
pub open spec fn resolved_in(
    uri: Seq<char>,
    listed: Result<Seq<DisplayView>, Seq<char>>,
) -> Result<TargetView, Seq<char>> {
    match listed {
        Ok(displays) => resolved(uri, displays),
        Err(e) => Err(e),
    }
}

/// Finds the display that a URI names among these.
pub fn resolve_display(uri: &str, displays: Vec<DisplayInfo>) -> (r: Result<DisplayTarget, Error>)
    ensures
        error::outcome(r) == resolved(uri@, views(displays@)),
{
    let mut displays = displays;
    let ghost all = views(displays@);
    let chars = text::to_chars(uri);
    let prefix = text::to_chars("display://");
    if !text::has_prefix(chars.as_slice(), prefix.as_slice()) {
        return Err(Error::about("not a display:// URI: ", uri));
    }
    let rest = vstd::slice::slice_subrange(chars.as_slice(), prefix.len(), chars.len());
    if text::same(text::from_chars(rest).as_str(), "primary") {
        return match position_of(&displays, None) {
            Some(i) => Ok(DisplayTarget::from(displays.swap_remove(i))),
            None => Err(Error::new("no primary display found")),
        };
    }
    let by_index = text::to_chars("index/");
    if text::has_prefix(rest, by_index.as_slice()) {
        let digits = vstd::slice::slice_subrange(rest, by_index.len(), rest.len());
        return match text::parse_number(digits, usize::MAX as u64) {
            Some(n) => if n < displays.len() as u64 {
                assert(all[n as int] == displays@[n as int]@);
                Ok(DisplayTarget::from(displays.swap_remove(n as usize)))
            } else {
                let number = text::to_decimal(n);
                Err(Error::about("no display with index ", number.as_str()))
            },
            None => {
                let shown = text::from_chars(digits);
                Err(Error::about("invalid display index in URI: ", shown.as_str()))
            },
        };
    }
    let by_name = text::to_chars("name/");
    if text::has_prefix(rest, by_name.as_slice()) {
        let name = text::from_chars(
            vstd::slice::slice_subrange(rest, by_name.len(), rest.len()),
        );
        return match position_of(&displays, Some(name.as_str())) {
            Some(i) => Ok(DisplayTarget::from(displays.swap_remove(i))),
            None => Err(Error::about("no display named ", name.as_str())),
        };
    }
    Err(Error::about("unrecognized display:// URI form: ", uri))
}

/// Finds the display that a URI names:
/// - `display://primary`: the primary display
/// - `display://index/<N>`: entry N, from 0, of the list of displays
/// - `display://name/<DeviceName>`: the display with this name
///
/// The displays are listed, by `enumerate`, only where the scheme is right.
pub fn parse_display_uri<F: FnOnce() -> Result<Vec<DisplayInfo>, Error>>(
    uri: &str,
    enumerate: F,
) -> (r: Result<DisplayTarget, Error>)
    requires
        "display://"@.is_prefix_of(uri@) ==> call_requires(enumerate, ()),
    ensures
        if "display://"@.is_prefix_of(uri@) {
            exists|listed: Result<Vec<DisplayInfo>, Error>| #[trigger]
                call_ensures(enumerate, (), listed) && error::outcome(r) == resolved_in(
                    uri@,
                    listing(listed),
                )
        } else {
            error::outcome(r) == Err::<TargetView, Seq<char>>("not a display:// URI: "@ + uri@)
        },
{
    if !text::starts_with(uri, "display://") {
        return Err(Error::about("not a display:// URI: ", uri));
    }
    match enumerate() {
        Ok(displays) => resolve_display(uri, displays),
        Err(e) => Err(e),
    }
}

// ---------------------------------------------------------------------------
// Laws
// ---------------------------------------------------------------------------

/// On Windows and Linux every display is listed at the position that its index
/// gives.
pub proof fn indices_are_positions(source: DisplaySource, i: int)
    requires
        source is Windows || source is Linux,
        source.listed() is Ok,
        0 <= i < source.listed()->Ok_0.len(),
    ensures
        source.listed()->Ok_0[i].index == i,
{
    match source {
        DisplaySource::Windows(Ok(adapters)) => {
            lemma_adapter_indices(adapters@);
        },
        DisplaySource::Linux(XrandrRun::Printed(stdout)) => {
            lemma_xrandr_indices(text::lines_of(stdout@));
        },
        _ => {},
    }
}

proof fn lemma_output_indices(outputs: Seq<OutputDesc>, start: nat)
    ensures
        forall|i: int|
            0 <= i < displays_at_outputs(outputs, start).len() ==> (
            #[trigger] displays_at_outputs(outputs, start)[i]).index == start + i,
    decreases outputs.len(),
{
    if outputs.len() > 0 {
        lemma_output_indices(outputs.drop_last(), start);
        let before = displays_at_outputs(outputs.drop_last(), start);
        let all = displays_at_outputs(outputs, start);
        assert forall|i: int| 0 <= i < all.len() implies (#[trigger] all[i]).index == start + i by {
            if i < before.len() {
                assert(all[i] == before[i]);
            }
        }
    }
}

proof fn lemma_adapter_indices(adapters: Seq<Vec<OutputDesc>>)
    ensures
        forall|i: int|
            0 <= i < displays_at_adapters(adapters).len() ==> (
            #[trigger] displays_at_adapters(adapters)[i]).index == i,
    decreases adapters.len(),
{
    if adapters.len() > 0 {
        let before = displays_at_adapters(adapters.drop_last());
        lemma_adapter_indices(adapters.drop_last());
        lemma_output_indices(adapters.last()@, before.len());
        let own = displays_at_outputs(adapters.last()@, before.len());
        assert forall|i: int| 0 <= i < displays_at_adapters(adapters).len() implies (
        #[trigger] displays_at_adapters(adapters)[i]).index == i by {
            if i >= before.len() {
                assert(displays_at_adapters(adapters)[i] == own[i - before.len()]);
            } else {
                assert(displays_at_adapters(adapters)[i] == before[i]);
            }
        }
    }
}

proof fn lemma_xrandr_indices(lines: Seq<Seq<char>>)
    ensures
        forall|i: int|
            0 <= i < xrandr_displays(lines).len() ==> (#[trigger] xrandr_displays(lines)[i]).index
                == i,
    decreases lines.len(),
{
    if lines.len() > 0 {
        lemma_xrandr_indices(lines.drop_last());
        let before = xrandr_displays(lines.drop_last());
        let all = xrandr_displays(lines);
        assert forall|i: int| 0 <= i < all.len() implies (#[trigger] all[i]).index == i by {
            if i < before.len() {
                assert(all[i] == before[i]);
            }
        }
    }
}

/// Every listed display is found by the URI of its position.
pub proof fn index_uri_finds_each(displays: Seq<DisplayView>, i: nat)
    requires
        i < displays.len(),
        i <= usize::MAX,
    ensures
        resolved("display://index/"@ + text::decimal(i), displays) == Ok::<TargetView, Seq<char>>(
            displays[i as int].target(),
        ),
{
    let uri = "display://index/"@ + text::decimal(i);
    reveal_strlit("display://index/");
    reveal_strlit("display://");
    reveal_strlit("index/");
    reveal_strlit("primary");
    text::decimal_reads_back(i, usize::MAX as nat);
    let rest = uri.skip(10);
    assert(uri.subrange(0, 10) =~= "display://"@);
    assert(rest.subrange(0, 6) =~= "index/"@);
    assert(rest[0] == 'i' && "primary"@[0] == 'p');
    assert(rest.skip(6) =~= text::decimal(i));
}

/// The URI of a name finds the display that the lookup by name finds.
pub proof fn name_uri_agrees_with_lookup(displays: Seq<DisplayView>, name: Seq<char>)
    ensures
        resolved("display://name/"@ + name, displays) == match first_display(
            displays,
            with_name(name),
        ) {
            Some(d) => Ok::<TargetView, Seq<char>>(d.target()),
            None => Err::<TargetView, Seq<char>>("no display named "@ + name),
        },
{
    let uri = "display://name/"@ + name;
    reveal_strlit("display://name/");
    reveal_strlit("display://");
    reveal_strlit("index/");
    reveal_strlit("name/");
    reveal_strlit("primary");
    let rest = uri.skip(10);
    assert(uri.subrange(0, 10) =~= "display://"@);
    assert(rest.subrange(0, 5) =~= "name/"@);
    assert(rest[0] == 'n' && "primary"@[0] == 'p' && "index/"@[0] == 'i');
    assert(rest.skip(5) =~= name);
}

/// A lookup finds a display that is listed and meets the condition, unless none
/// does.
pub proof fn lookup_is_exact(displays: Seq<DisplayView>, p: spec_fn(DisplayView) -> bool)
    ensures
        match first_display(displays, p) {
            Some(d) => exists|i: int|
                0 <= i < displays.len() && #[trigger] displays[i] == d && p(d) && forall|j: int|
                    0 <= j < i ==> !p(#[trigger] displays[j]),
            None => forall|j: int| 0 <= j < displays.len() ==> !p(#[trigger] displays[j]),
        },
    decreases displays.len(),
{
    if displays.len() > 0 {
        if p(displays[0]) {
            assert(displays[0] == first_display(displays, p)->0);
        } else {
            let rest = displays.skip(1);
            lookup_is_exact(rest, p);
            match first_display(displays, p) {
                Some(d) => {
                    let i = choose|i: int|
                        0 <= i < rest.len() && #[trigger] rest[i] == d && p(d) && forall|j: int|
                            0 <= j < i ==> !p(#[trigger] rest[j]);
                    assert(displays[i + 1] == d);
                    assert forall|j: int| 0 <= j < i + 1 implies !p(#[trigger] displays[j]) by {
                        if j > 0 {
                            assert(displays[j] == rest[j - 1]);
                        }
                    }
                },
                None => {
                    assert forall|j: int| 0 <= j < displays.len() implies !p(
                        #[trigger] displays[j],
                    ) by {
                        if j > 0 {
                            assert(displays[j] == rest[j - 1]);
                        }
                    }
                },
            }
        }
    }
}

} // verus!
