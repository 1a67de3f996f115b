//! Choosing an encoder: which ones this ffmpeg build has, in which order they
//! are tried, and how each is tried.
use vstd::prelude::*;
use vstd::string::*;

use crate::error::Error;
use crate::text;

verus! {

#[derive(Debug, Clone, Copy, PartialEq, Eq, Structural)]
pub enum Codec {
    Hevc,
    H264,
    Vp9,
}

impl Codec {
    /// The value of ffmpeg's `-f` for this codec.
    pub open spec fn format_text(self) -> Seq<char> {
        match self {
            Codec::Hevc => "hevc"@,
            Codec::H264 => "h264"@,
            Codec::Vp9 => "ivf"@,
        }
    }

    /// The name of this codec in negotiation.
    pub open spec fn name_text(self) -> Seq<char> {
        match self {
            Codec::Hevc => "hevc"@,
            Codec::H264 => "h264"@,
            Codec::Vp9 => "vp9"@,
        }
    }

    /// The codec that a command line value names.
    pub open spec fn named(value: Seq<char>) -> Option<Codec> {
        if value == "hevc"@ {
            Some(Codec::Hevc)
        } else if value == "h264"@ {
            Some(Codec::H264)
        } else if value == "vp9"@ {
            Some(Codec::Vp9)
        } else {
            None
        }
    }

    /// The `-f` value for the raw bitstream of this codec. VP9 has no Annex-B
    /// form, so it goes into a minimal container (IVF).
    pub fn output_format(self) -> (r: &'static str)
        ensures
            r@ == self.format_text(),
    {
        match self {
            Codec::Hevc => "hevc",
            Codec::H264 => "h264",
            Codec::Vp9 => "ivf",
        }
    }

    /// The identifier used in negotiation.
    pub fn wire_name(self) -> (r: &'static str)
        ensures
            r@ == self.name_text(),
    {
        match self {
            Codec::Hevc => "hevc",
            Codec::H264 => "h264",
            Codec::Vp9 => "vp9",
        }
    }

    /// Reads the value of the `--codec` argument.
    pub fn parse_cli(value: &str) -> (r: Result<Codec, Error>)
        ensures
            match r {
                Ok(codec) => Codec::named(value@) == Some(codec),
                Err(e) => Codec::named(value@) is None && e@ == "unknown codec: "@ + value@
                    + " (expected hevc/h264/vp9)"@,
            },
    {
        if text::same(value, "hevc") {
            Ok(Codec::Hevc)
        } else if text::same(value, "h264") {
            Ok(Codec::H264)
        } else if text::same(value, "vp9") {
            Ok(Codec::Vp9)
        } else {
            let mut message = String::new();
            message.append("unknown codec: ");
            message.append(value);
            message.append(" (expected hevc/h264/vp9)");
            assert(message@ =~= "unknown codec: "@ + value@ + " (expected hevc/h264/vp9)"@);
            Err(Error { message })
        }
    }
}

/// Every codec is read back from its own wire name.
pub proof fn wire_name_reads_back(codec: Codec)
    ensures
        Codec::named(codec.name_text()) == Some(codec),
{
    reveal_strlit("hevc");
    reveal_strlit("h264");
    reveal_strlit("vp9");
    assert("hevc"@[1] != "h264"@[1]);
    assert("vp9"@.len() != "hevc"@.len());
    assert("vp9"@.len() != "h264"@.len());
}

/// Encoders with their codecs, as texts.
pub open spec fn encoder_texts(v: Seq<(Codec, &str)>) -> Seq<(Codec, Seq<char>)> {
    v.map_values(|p: (Codec, &str)| (p.0, p.1@))
}

/// The encoders in the order in which they are preferred: HEVC in hardware,
/// H.264 in hardware, H.264 on the CPU, VP9 on the CPU.
pub open spec fn priority() -> Seq<(Codec, Seq<char>)> {
    seq![
        (Codec::Hevc, "hevc_nvenc"@),
        (Codec::Hevc, "hevc_amf"@),
        (Codec::Hevc, "hevc_qsv"@),
        (Codec::Hevc, "hevc_vaapi"@),
        (Codec::Hevc, "hevc_videotoolbox"@),
        (Codec::H264, "h264_nvenc"@),
        (Codec::H264, "h264_amf"@),
        (Codec::H264, "h264_qsv"@),
        (Codec::H264, "h264_vaapi"@),
        (Codec::H264, "h264_videotoolbox"@),
        (Codec::H264, "libopenh264"@),
        (Codec::Vp9, "libvpx-vp9"@),
    ]
}

/// The encoders in order of preference.
pub fn encoder_priority() -> (r: Vec<(Codec, &'static str)>)
    ensures
        encoder_texts(r@) == priority(),
{
    let r: Vec<(Codec, &'static str)> = vec![
        (Codec::Hevc, "hevc_nvenc"),
        (Codec::Hevc, "hevc_amf"),
        (Codec::Hevc, "hevc_qsv"),
        (Codec::Hevc, "hevc_vaapi"),
        (Codec::Hevc, "hevc_videotoolbox"),
        (Codec::H264, "h264_nvenc"),
        (Codec::H264, "h264_amf"),
        (Codec::H264, "h264_qsv"),
        (Codec::H264, "h264_vaapi"),
        (Codec::H264, "h264_videotoolbox"),
        (Codec::H264, "libopenh264"),
        (Codec::Vp9, "libvpx-vp9"),
    ];
    assert(encoder_texts(r@) =~= priority());
    r
}

/// Hardware encoders are known by their suffix.
pub open spec fn hardware(encoder: Seq<char>) -> bool {
    ||| "_nvenc"@.is_suffix_of(encoder)
    ||| "_amf"@.is_suffix_of(encoder)
    ||| "_qsv"@.is_suffix_of(encoder)
    ||| "_vaapi"@.is_suffix_of(encoder)
    ||| "_videotoolbox"@.is_suffix_of(encoder)
}

/// Whether this encoder takes the captured frames directly, in hardware. All
/// others need them converted in system memory first.
pub fn is_hardware_encoder(encoder: &str) -> (r: bool)
    ensures
        r == hardware(encoder@),
{
    text::ends_with(encoder, "_nvenc") || text::ends_with(encoder, "_amf") || text::ends_with(
        encoder,
        "_qsv",
    ) || text::ends_with(encoder, "_vaapi") || text::ends_with(encoder, "_videotoolbox")
}

/// The `-f` value for an encoder.
pub open spec fn format_for(encoder: Seq<char>) -> Seq<char> {
    if "hevc"@.is_prefix_of(encoder) {
        "hevc"@
    } else if "h264"@.is_prefix_of(encoder) || encoder == "libopenh264"@ {
        "h264"@
    } else {
        "ivf"@
    }
}

/// The `-f` value for an encoder.
pub fn output_format_for(encoder: &str) -> (r: &'static str)
    ensures
        r@ == format_for(encoder@),
{
    if text::starts_with(encoder, "hevc") {
        "hevc"
    } else if text::starts_with(encoder, "h264") || text::same(encoder, "libopenh264") {
        "h264"
    } else {
        "ivf"
    }
}

// ---------------------------------------------------------------------------
// What ffmpeg has compiled in
// ---------------------------------------------------------------------------

/// The first column of an encoder line: six bytes, the first of which tells
/// video, audio or subtitle.
pub open spec fn flags_column(flags: Seq<char>) -> bool {
    &&& vstd::utf8::encode_utf8(flags).len() == 6
    &&& flags.len() > 0
    &&& (flags[0] == 'V' || flags[0] == 'A' || flags[0] == 'S')
}

/// The encoder that a line of `ffmpeg -encoders` lists: the second of its
/// columns, each ended by one whitespace character.
pub open spec fn encoder_in_line(line: Seq<char>) -> Option<Seq<char>> {
    let t = text::trimmed_start(line);
    let n = text::first_where(t, text::space());
    let rest = t.skip(n + 1);
    let m = text::first_where(rest, text::space());
    if n < t.len() && flags_column(t.take(n)) {
        Some(rest.take(m))
    } else {
        None
    }
}

/// The encoders that the lines list, in order.
pub open spec fn encoders_in(lines: Seq<Seq<char>>) -> Seq<Seq<char>>
    decreases lines.len(),
{
    if lines.len() == 0 {
        Seq::empty()
    } else {
        let before = encoders_in(lines.drop_last());
        match encoder_in_line(lines.last()) {
            Some(name) => before.push(name),
            None => before,
        }
    }
}

/// The encoder that one line lists.
fn parse_encoder_line(line: &[char]) -> (r: Option<String>)
    ensures
        match r {
            Some(name) => encoder_in_line(line@) == Some(name@),
            None => encoder_in_line(line@) is None,
        },
{
    let t = text::trim_start(line);
    let n: usize = text::find_space(t);
    proof {
        text::lemma_first_where(t@, text::space());
    }
    if n >= t.len() {
        return None;
    }
    let flags = vstd::slice::slice_subrange(t, 0, n);
    let flags_text = text::from_chars(flags);
    let flag_bytes: usize = flags_text.as_str().as_bytes().len();
    if flag_bytes != 6 || n == 0 {
        return None;
    }
    let kind: char = flags[0];
    if kind != 'V' && kind != 'A' && kind != 'S' {
        return None;
    }
    let rest = vstd::slice::slice_subrange(t, n + 1, t.len());
    let m: usize = text::find_space(rest);
    proof {
        text::lemma_first_where(rest@, text::space());
    }
    Some(text::from_chars(vstd::slice::slice_subrange(rest, 0, m)))
}

/// The encoders compiled into an ffmpeg build, from what it prints for
/// `-hide_banner -encoders`.
pub fn list_compiled_encoders(stdout: &str) -> (r: Vec<String>)
    ensures
        text::texts(r@) == encoders_in(text::lines_of(stdout@)),
{
    let lines = text::lines(text::to_chars(stdout).as_slice());
    let ghost all = text::rows(lines@);
    let mut r: Vec<String> = Vec::new();
    let mut i: usize = 0;
    assert(text::texts(r@) =~= encoders_in(all.take(0)));
    while i < lines.len()
        invariant
            0 <= i <= lines@.len(),
            all == text::rows(lines@),
            text::texts(r@) == encoders_in(all.take(i as int)),
        decreases lines@.len() - i,
    {
        assert(all.take(i + 1).drop_last() =~= all.take(i as int));
        assert(all.take(i + 1).last() == lines@[i as int]@);
        let ghost before = r@;
        if let Some(name) = parse_encoder_line(lines[i].as_slice()) {
            r.push(name);
            assert(text::texts(r@) =~= text::texts(before).push(name@));
        }
        i += 1;
    }
    assert(all.take(i as int) =~= all);
    r
}

// ---------------------------------------------------------------------------
// Trying one encoder
// ---------------------------------------------------------------------------

/// How long the trial of one encoder may take.
pub const PROBE_TIMEOUT_NANOS: u128 = 15_000_000_000;

/// How long to wait between two looks at a running trial.
pub const PROBE_POLL_MILLIS: u64 = 100;

/// The arguments of a trial: one captured frame, encoded into the null device.
pub open spec fn probe_arguments(encoder: Seq<char>, windows: bool) -> Seq<Seq<char>> {
    seq![
        "-hide_banner"@,
        "-loglevel"@,
        "error"@,
        "-filter_complex"@,
        if hardware(encoder) {
            "ddagrab=framerate=5[vout]"@
        } else {
            "ddagrab=framerate=5,format=bgra,format=yuv420p[vout]"@
        },
        "-map"@,
        "[vout]"@,
        "-frames:v"@,
        "1"@,
        "-c:v"@,
        encoder,
        "-f"@,
        format_for(encoder),
        "-y"@,
        if windows {
            "NUL"@
        } else {
            "/dev/null"@
        },
    ]
}

/// The arguments with which ffmpeg tries an encoder.
pub fn probe_args(encoder: &str, windows: bool) -> (r: Vec<String>)
    ensures
        text::texts(r@) == probe_arguments(encoder@, windows),
{
    let filter_complex = if is_hardware_encoder(encoder) {
        "ddagrab=framerate=5[vout]"
    } else {
        "ddagrab=framerate=5,format=bgra,format=yuv420p[vout]"
    };
    let null_sink = if windows {
        "NUL"
    } else {
        "/dev/null"
    };
    let mut args: Vec<String> = Vec::new();
    text::push_all(
        &mut args,
        vec![
            "-hide_banner",
            "-loglevel",
            "error",
            "-filter_complex",
            filter_complex,
            "-map",
            "[vout]",
            "-frames:v",
            "1",
            "-c:v",
            encoder,
            "-f",
            output_format_for(encoder),
            "-y",
            null_sink,
        ],
    );
    assert(text::texts(args@) =~= probe_arguments(encoder@, windows));
    args
}

/// What a look at the trial process shows.
pub enum ProbePoll {
    /// It has ended, successfully or not.
    Exited(bool),
    Running,
    /// Its state cannot be read.
    Failed,
}

/// What to do after that look.
#[derive(Debug, PartialEq, Eq)]
pub enum ProbeAction {
    /// The encoder works or does not.
    Answer(bool),
    /// Kill the process: the encoder does not work.
    GiveUp,
    /// Wait and look again.
    Wait,
}

/// What follows from one look at a trial that began `elapsed_nanos` ago.
pub open spec fn probe_after(poll: ProbePoll, elapsed_nanos: u128) -> ProbeAction {
    match poll {
        ProbePoll::Exited(success) => ProbeAction::Answer(success),
        ProbePoll::Failed => ProbeAction::Answer(false),
        ProbePoll::Running => if elapsed_nanos > PROBE_TIMEOUT_NANOS {
            ProbeAction::GiveUp
        } else {
            ProbeAction::Wait
        },
    }
}

/// Decides what follows from one look at a trial that began
/// `elapsed_nanos` ago.
pub fn probe_step(poll: ProbePoll, elapsed_nanos: u128) -> (r: ProbeAction)
    ensures
        r == probe_after(poll, elapsed_nanos),
        r == (match poll {
            ProbePoll::Exited(success) => ProbeAction::Answer(success),
            ProbePoll::Failed => ProbeAction::Answer(false),
            ProbePoll::Running => if elapsed_nanos > PROBE_TIMEOUT_NANOS {
                ProbeAction::GiveUp
            } else {
                ProbeAction::Wait
            },
        }),
{
    match poll {
        ProbePoll::Exited(success) => ProbeAction::Answer(success),
        ProbePoll::Failed => ProbeAction::Answer(false),
        ProbePoll::Running => {
            if elapsed_nanos > PROBE_TIMEOUT_NANOS {
                ProbeAction::GiveUp
            } else {
                ProbeAction::Wait
            }
        },
    }
}

// ---------------------------------------------------------------------------
// Choosing
// ---------------------------------------------------------------------------

/// An encoder may be tried: it is compiled in, and of the codec asked for.
pub open spec fn eligible(
    entry: (Codec, Seq<char>),
    compiled: Seq<Seq<char>>,
    preferred: Option<Codec>,
) -> bool {
    compiled.contains(entry.1) && (preferred is Some ==> preferred == Some(entry.0))
}

/// The eligible encoders among the first `n` by preference.
pub open spec fn candidates_upto(
    compiled: Seq<Seq<char>>,
    preferred: Option<Codec>,
    n: int,
) -> Seq<(Codec, Seq<char>)>
    decreases n,
{
    if n <= 0 {
        Seq::empty()
    } else if eligible(priority()[n - 1], compiled, preferred) {
        candidates_upto(compiled, preferred, n - 1).push(priority()[n - 1])
    } else {
        candidates_upto(compiled, preferred, n - 1)
    }
}

/// The eligible encoders, in order of preference.
pub open spec fn candidates(compiled: Seq<Seq<char>>, preferred: Option<Codec>) -> Seq<
    (Codec, Seq<char>),
> {
    candidates_upto(compiled, preferred, priority().len() as int)
}

/// The names of a list of encoders, separated by commas.
pub open spec fn encoder_names(v: Seq<(Codec, Seq<char>)>) -> Seq<char> {
    text::joined_with(v.map_values(|p: (Codec, Seq<char>)| p.1), ", "@)
}

/// The trial of the encoder with this name was answered so.
pub open spec fn answered<F: Fn(&str) -> bool>(probe: F, encoder: Seq<char>, works: bool) -> bool {
    exists|name: &str| name@ == encoder && #[trigger] call_ensures(probe, (name,), works)
}

/// The trials of all these encoders were answered so: they do not work.
pub open spec fn all_failed<F: Fn(&str) -> bool>(probe: F, tried: Seq<(Codec, Seq<char>)>) -> bool {
    forall|j: int| 0 <= j < tried.len() ==> answered(probe, (#[trigger] tried[j]).1, false)
}

fn is_listed(compiled: &Vec<String>, encoder: &str) -> (r: bool)
    ensures
        r == text::texts(compiled@).contains(encoder@),
{
    let mut i: usize = 0;
    while i < compiled.len()
        invariant
            0 <= i <= compiled@.len(),
            forall|j: int| 0 <= j < i ==> #[trigger] compiled@[j]@ != encoder@,
        decreases compiled@.len() - i,
    {
        if text::same(compiled[i].as_str(), encoder) {
            assert(text::texts(compiled@)[i as int] == encoder@);
            return true;
        }
        i += 1;
    }
    assert forall|j: int| 0 <= j < text::texts(compiled@).len() implies text::texts(compiled@)[j]
        != encoder@ by {
        assert(compiled@[j]@ != encoder@);
    }
    false
}

/// The encoders to try, in order of preference.
pub fn candidate_encoders(compiled: &Vec<String>, preferred: Option<Codec>) -> (r: Vec<
    (Codec, &'static str),
>)
    ensures
        encoder_texts(r@) == candidates(text::texts(compiled@), preferred),
{
    let order = encoder_priority();
    let mut r: Vec<(Codec, &'static str)> = Vec::new();
    let mut i: usize = 0;
    assert(encoder_texts(r@) =~= Seq::empty());
    while i < order.len()
        invariant
            0 <= i <= order@.len(),
            encoder_texts(order@) == priority(),
            encoder_texts(r@) == candidates_upto(text::texts(compiled@), preferred, i as int),
        decreases order@.len() - i,
    {
        let entry = order[i];
        assert(priority()[i as int] == encoder_texts(order@)[i as int]);
        let wanted = match preferred {
            Some(codec) => codec == entry.0,
            None => true,
        };
        let ghost before = r@;
        if is_listed(compiled, entry.1) && wanted {
            r.push(entry);
            assert(encoder_texts(r@) =~= encoder_texts(before).push((entry.0, entry.1@)));
        }
        i += 1;
    }
    assert(order@.len() == priority().len());
    r
}

/// The names of these encoders, separated by commas.
fn names_of(v: &Vec<(Codec, &'static str)>) -> (r: String)
    ensures
        r@ == encoder_names(encoder_texts(v@)),
{
    let mut names: Vec<&str> = Vec::new();
    let mut i: usize = 0;
    while i < v.len()
        invariant
            0 <= i <= v@.len(),
            names@.len() == i,
            forall|j: int| 0 <= j < i ==> #[trigger] names@[j]@ == v@[j].1@,
        decreases v@.len() - i,
    {
        names.push(v[i].1);
        i += 1;
    }
    assert(text::str_texts(names@) =~= encoder_texts(v@).map_values(
        |p: (Codec, Seq<char>)| p.1,
    ));
    text::join(&names, ", ")
}

/// Picks the best encoder: the first one, in order of preference, that is
/// compiled in, is of the preferred codec if there is one, and works in a
/// trial. An encoder is tried only after all before it have failed.
pub fn pick_best_encoder<F: Fn(&str) -> bool>(
    compiled: &Vec<String>,
    preferred_codec: Option<Codec>,
    probe_encoder_works: F,
) -> (r: Result<(Codec, String), Error>)
    requires
        forall|name: &str, k: int|
            #![trigger call_requires(probe_encoder_works, (name,)), candidates(text::texts(compiled@), preferred_codec)[k]]
            0 <= k < candidates(text::texts(compiled@), preferred_codec).len() && name@
                == candidates(text::texts(compiled@), preferred_codec)[k].1 && all_failed(
                probe_encoder_works,
                candidates(text::texts(compiled@), preferred_codec).take(k),
            ) ==> call_requires(probe_encoder_works, (name,)),
    ensures
        ({
            let tried = candidates(text::texts(compiled@), preferred_codec);
            match r {
                Ok((codec, encoder)) => {
                    &&& preferred_codec is Some ==> preferred_codec == Some(codec)
                    &&& text::texts(compiled@).contains(encoder@)
                    &&& answered(probe_encoder_works, encoder@, true)
                    &&& exists|k: int|
                        {
                            &&& 0 <= k < tried.len()
                            &&& #[trigger] tried[k] == (codec, encoder@)
                            &&& answered(probe_encoder_works, tried[k].1, true)
                            &&& all_failed(probe_encoder_works, tried.take(k))
                        }
                },
                Err(e) => {
                    &&& all_failed(probe_encoder_works, tried)
                    &&& e@ == if tried.len() == 0 {
                        "no usable encoder compiled into this ffmpeg build (checked: "@
                            + encoder_names(priority()) + ")"@
                    } else {
                        "no usable encoder found at runtime among compiled candidates: "@
                            + encoder_names(tried)
                    }
                },
            }
        }),
{
    let found = candidate_encoders(compiled, preferred_codec);
    let ghost tried = candidates(text::texts(compiled@), preferred_codec);
    if found.len() == 0 {
        let mut message = String::new();
        message.append("no usable encoder compiled into this ffmpeg build (checked: ");
        message.append(names_of(&encoder_priority()).as_str());
        message.append(")");
        assert(message@ =~= "no usable encoder compiled into this ffmpeg build (checked: "@
            + encoder_names(priority()) + ")"@);
        assert(tried.len() == 0);
        return Err(Error { message });
    }
    let mut i: usize = 0;
    while i < found.len()
        invariant
            0 <= i <= found@.len(),
            encoder_texts(found@) == tried,
            tried == candidates(text::texts(compiled@), preferred_codec),
            forall|name: &str, k: int|
                #![trigger call_requires(probe_encoder_works, (name,)), tried[k]]
                0 <= k < tried.len() && name@ == tried[k].1 && all_failed(
                    probe_encoder_works,
                    tried.take(k),
                ) ==> call_requires(probe_encoder_works, (name,)),
            all_failed(probe_encoder_works, tried.take(i as int)),
        decreases found@.len() - i,
    {
        let entry = found[i];
        assert(tried[i as int] == (entry.0, entry.1@));
        if probe_encoder_works(entry.1) {
            assert(answered(probe_encoder_works, tried[i as int].1, true));
            proof {
                candidates_in_words(text::texts(compiled@), preferred_codec);
                assert(tried.contains(tried[i as int]));
            }
            return Ok((entry.0, entry.1.to_owned()));
        }
        assert(answered(probe_encoder_works, tried[i as int].1, false));
        assert(tried.take(i + 1) =~= tried.take(i as int).push(tried[i as int]));
        i += 1;
    }
    assert(tried.take(i as int) =~= tried);
    let mut message = String::new();
    message.append("no usable encoder found at runtime among compiled candidates: ");
    message.append(names_of(&found).as_str());
    assert(message@ =~= "no usable encoder found at runtime among compiled candidates: "@
        + encoder_names(tried));
    Err(Error { message })
}

// ---------------------------------------------------------------------------
// Laws
// ---------------------------------------------------------------------------

/// The order of preference: HEVC before H.264 before VP9, and within a codec
/// hardware before software. HEVC has no software encoder.
pub proof fn priority_prefers_codec_and_hardware()
    ensures
        forall|i: int|
            0 <= i < priority().len() ==> {
                &&& (#[trigger] priority()[i]).0 == (if i < 5 {
                    Codec::Hevc
                } else if i < 11 {
                    Codec::H264
                } else {
                    Codec::Vp9
                })
                &&& hardware(priority()[i].1) == (i < 10)
            },
{
    assert forall|i: int| 0 <= i < priority().len() implies {
        &&& (#[trigger] priority()[i]).0 == (if i < 5 {
            Codec::Hevc
        } else if i < 11 {
            Codec::H264
        } else {
            Codec::Vp9
        })
        &&& hardware(priority()[i].1) == (i < 10)
    } by {
        lemma_hardware_of(i);
    }
}

proof fn lemma_hardware_of(i: int)
    requires
        0 <= i < 12,
    ensures
        hardware(priority()[i].1) == (i < 10),
{
    reveal_strlit("hevc_nvenc");
    reveal_strlit("hevc_amf");
    reveal_strlit("hevc_qsv");
    reveal_strlit("hevc_vaapi");
    reveal_strlit("hevc_videotoolbox");
    reveal_strlit("h264_nvenc");
    reveal_strlit("h264_amf");
    reveal_strlit("h264_qsv");
    reveal_strlit("h264_vaapi");
    reveal_strlit("h264_videotoolbox");
    reveal_strlit("libopenh264");
    reveal_strlit("libvpx-vp9");
    reveal_strlit("_nvenc");
    reveal_strlit("_amf");
    reveal_strlit("_qsv");
    reveal_strlit("_vaapi");
    reveal_strlit("_videotoolbox");
    let e = priority()[i].1;
    if i % 5 == 0 && i < 10 {
        assert("_nvenc"@ =~= e.subrange(e.len() - 6, e.len() as int));
    } else if i % 5 == 1 && i < 10 {
        assert("_amf"@ =~= e.subrange(e.len() - 4, e.len() as int));
    } else if i % 5 == 2 && i < 10 {
        assert("_qsv"@ =~= e.subrange(e.len() - 4, e.len() as int));
    } else if i % 5 == 3 && i < 10 {
        assert("_vaapi"@ =~= e.subrange(e.len() - 6, e.len() as int));
    } else if i % 5 == 4 && i < 10 {
        assert("_videotoolbox"@ =~= e.subrange(e.len() - 13, e.len() as int));
    } else {
        let n = e.len() as int;
        assert(e.subrange(n - 6, n)[5] != "_nvenc"@[5]);
        assert(e.subrange(n - 4, n)[3] != "_amf"@[3]);
        assert(e.subrange(n - 4, n)[3] != "_qsv"@[3]);
        assert(e.subrange(n - 6, n)[5] != "_vaapi"@[5]);
    }
}

/// Each encoder writes the raw format of its codec.
pub proof fn formats_agree_with_codecs(i: int)
    requires
        0 <= i < priority().len(),
    ensures
        format_for(priority()[i].1) == priority()[i].0.format_text(),
{
    reveal_strlit("hevc_nvenc");
    reveal_strlit("hevc_amf");
    reveal_strlit("hevc_qsv");
    reveal_strlit("hevc_vaapi");
    reveal_strlit("hevc_videotoolbox");
    reveal_strlit("h264_nvenc");
    reveal_strlit("h264_amf");
    reveal_strlit("h264_qsv");
    reveal_strlit("h264_vaapi");
    reveal_strlit("h264_videotoolbox");
    reveal_strlit("libopenh264");
    reveal_strlit("libvpx-vp9");
    reveal_strlit("hevc");
    reveal_strlit("h264");
    let e = priority()[i].1;
    if i < 5 {
        assert("hevc"@ =~= e.subrange(0, 4));
    } else if i < 10 {
        assert("h264"@ =~= e.subrange(0, 4));
        assert(e.subrange(0, 4)[1] != "hevc"@[1]);
    } else {
        assert(e.subrange(0, 4)[0] != "hevc"@[0]);
        assert(e.subrange(0, 4)[0] != "h264"@[0]);
        if i == 11 {
            assert(e.len() != "libopenh264"@.len());
        }
    }
}

/// The encoders tried are exactly the eligible ones, each at its place in the
/// order of preference.
pub proof fn candidates_are_the_eligible_ones(compiled: Seq<Seq<char>>, preferred: Option<Codec>)
    ensures
        ({
            let tried = candidates(compiled, preferred);
            &&& forall|k: int|
                0 <= k < tried.len() ==> eligible(#[trigger] tried[k], compiled, preferred)
                    && priority().contains(tried[k])
            &&& forall|i: int|
                0 <= i < priority().len() && eligible(#[trigger] priority()[i], compiled, preferred)
                    ==> tried.contains(priority()[i])
            &&& exists|at: Seq<int>| #[trigger] in_order(tried, at)
        }),
{
    let n = priority().len() as int;
    let at = lemma_candidates_upto(compiled, preferred, n);
    let tried = candidates(compiled, preferred);
    assert(in_order(tried, at));
}

/// Entry `k` of the list stands in the order of preference at `at[k]`, and
/// these places increase.
pub open spec fn in_order(list: Seq<(Codec, Seq<char>)>, at: Seq<int>) -> bool {
    &&& at.len() == list.len()
    &&& forall|k: int|
        0 <= k < at.len() ==> 0 <= #[trigger] at[k] < priority().len() && priority()[at[k]]
            == list[k]
    &&& forall|j: int, k: int| 0 <= j < k < at.len() ==> #[trigger] at[j] < #[trigger] at[k]
}

proof fn lemma_candidates_upto(
    compiled: Seq<Seq<char>>,
    preferred: Option<Codec>,
    n: int,
) -> (at: Seq<int>)
    requires
        0 <= n <= priority().len(),
    ensures
        ({
            let tried = candidates_upto(compiled, preferred, n);
            &&& in_order(tried, at)
            &&& forall|k: int| 0 <= k < at.len() ==> #[trigger] at[k] < n
            &&& forall|k: int|
                0 <= k < tried.len() ==> eligible(#[trigger] tried[k], compiled, preferred)
                    && priority().contains(tried[k])
            &&& forall|i: int|
                0 <= i < n && eligible(#[trigger] priority()[i], compiled, preferred)
                    ==> tried.contains(priority()[i])
        }),
    decreases n,
{
    if n == 0 {
        Seq::empty()
    } else {
        let before = candidates_upto(compiled, preferred, n - 1);
        let tried = candidates_upto(compiled, preferred, n);
        let at = lemma_candidates_upto(compiled, preferred, n - 1);
        let added = eligible(priority()[n - 1], compiled, preferred);
        assert forall|i: int|
            0 <= i < n && eligible(#[trigger] priority()[i], compiled, preferred) implies tried.contains(
        priority()[i]) by {
            if i < n - 1 {
                let k = choose|k: int| 0 <= k < before.len() && before[k] == priority()[i];
                assert(tried[k] == priority()[i]);
            } else {
                assert(tried.last() == priority()[i]);
            }
        }
        if added {
            at.push(n - 1)
        } else {
            at
        }
    }
}

/// The candidates are the encoders that are known, compiled in, and of the codec
/// asked for, if one is. A codec that was asked for is never given up for
/// another.
pub proof fn candidates_in_words(compiled: Seq<Seq<char>>, preferred: Option<Codec>)
    ensures
        forall|codec: Codec, name: Seq<char>| #[trigger]
            candidates(compiled, preferred).contains((codec, name)) <==> {
                &&& priority().contains((codec, name))
                &&& compiled.contains(name)
                &&& match preferred {
                    Some(wanted) => wanted == codec,
                    None => true,
                }
            },
{
    candidates_are_the_eligible_ones(compiled, preferred);
    let tried = candidates(compiled, preferred);
    assert forall|codec: Codec, name: Seq<char>| #[trigger]
        tried.contains((codec, name)) <==> {
            &&& priority().contains((codec, name))
            &&& compiled.contains(name)
            &&& match preferred {
                Some(wanted) => wanted == codec,
                None => true,
            }
        } by {
        if tried.contains((codec, name)) {
            let k = choose|k: int| 0 <= k < tried.len() && tried[k] == (codec, name);
            assert(eligible(tried[k], compiled, preferred));
        }
        if priority().contains((codec, name)) && compiled.contains(name) && match preferred {
            Some(wanted) => wanted == codec,
            None => true,
        } {
            let i = choose|i: int| 0 <= i < priority().len() && priority()[i] == (codec, name);
            assert(eligible(priority()[i], compiled, preferred));
        }
    }
}

/// The makers of hardware encoders, in order of preference.
pub open spec fn maker(i: int) -> Seq<char> {
    if i == 0 {
        "_nvenc"@
    } else if i == 1 {
        "_amf"@
    } else if i == 2 {
        "_qsv"@
    } else if i == 3 {
        "_vaapi"@
    } else {
        "_videotoolbox"@
    }
}

/// A hardware encoder is named after its codec and its maker. The makers are
/// preferred in the same order for HEVC, which comes first, and for H.264. Then
/// come OpenH264 and libvpx.
pub proof fn priority_goes_by_codec_and_maker(i: int)
    requires
        0 <= i < 5,
    ensures
        priority().len() == 12,
        priority()[i] == (Codec::Hevc, "hevc"@ + maker(i)),
        priority()[i + 5] == (Codec::H264, "h264"@ + maker(i)),
        priority()[10] == (Codec::H264, "libopenh264"@),
        priority()[11] == (Codec::Vp9, "libvpx-vp9"@),
{
    reveal_strlit("hevc");
    reveal_strlit("h264");
    reveal_strlit("hevc_nvenc");
    reveal_strlit("hevc_amf");
    reveal_strlit("hevc_qsv");
    reveal_strlit("hevc_vaapi");
    reveal_strlit("hevc_videotoolbox");
    reveal_strlit("h264_nvenc");
    reveal_strlit("h264_amf");
    reveal_strlit("h264_qsv");
    reveal_strlit("h264_vaapi");
    reveal_strlit("h264_videotoolbox");
    reveal_strlit("_nvenc");
    reveal_strlit("_amf");
    reveal_strlit("_qsv");
    reveal_strlit("_vaapi");
    reveal_strlit("_videotoolbox");
    assert(priority()[i].1 =~= "hevc"@ + maker(i));
    assert(priority()[i + 5].1 =~= "h264"@ + maker(i));
}

/// Every encoder whose name ends with that of a maker runs in hardware, and no
/// other.
pub proof fn makers_tell_hardware(encoder: Seq<char>)
    ensures
        hardware(encoder) <==> exists|i: int|
            0 <= i < 5 && (#[trigger] maker(i)).is_suffix_of(encoder),
{
    if hardware(encoder) {
        assert(maker(0).is_suffix_of(encoder) || maker(1).is_suffix_of(encoder) || maker(
            2,
        ).is_suffix_of(encoder) || maker(3).is_suffix_of(encoder) || maker(4).is_suffix_of(
            encoder,
        ));
    }
    if exists|i: int| 0 <= i < 5 && (#[trigger] maker(i)).is_suffix_of(encoder) {
        let i = choose|i: int| 0 <= i < 5 && (#[trigger] maker(i)).is_suffix_of(encoder);
        assert(maker(i).is_suffix_of(encoder));
    }
}

/// Only the three wire names name a codec.
pub proof fn only_wire_names_are_read(value: Seq<char>)
    ensures
        Codec::named(value) matches Some(codec) ==> value == codec.name_text(),
{
}

/// The raw format of a codec has its own name, but VP9 goes into a container.
pub proof fn formats_are_the_names(codec: Codec)
    ensures
        codec.format_text() == if codec == Codec::Vp9 {
            "ivf"@
        } else {
            codec.name_text()
        },
        codec.name_text() == match codec {
            Codec::Hevc => "hevc"@,
            Codec::H264 => "h264"@,
            Codec::Vp9 => "vp9"@,
        },
{
}

/// The line for an encoder in ffmpeg's list is read back: an indent, six flags of
/// which the first is for video, audio or subtitles, the name, and whatever
/// follows behind a space.
pub proof fn listed_encoders_are_read(
    indent: Seq<char>,
    flags: Seq<char>,
    name: Seq<char>,
    rest: Seq<char>,
)
    requires
        forall|i: int| 0 <= i < indent.len() ==> #[trigger] indent[i] == ' ',
        flags.len() == 6,
        flags[0] == 'V' || flags[0] == 'A' || flags[0] == 'S',
        forall|i: int| 0 <= i < 6 ==> '!' <= #[trigger] flags[i] && flags[i] <= '~',
        forall|i: int| 0 <= i < name.len() ==> !text::white(#[trigger] name[i]),
    ensures
        encoder_in_line(indent + flags + seq![' '] + name + seq![' '] + rest) == Some(name),
{
    let line = indent + flags + seq![' '] + name + seq![' '] + rest;
    let t = flags + seq![' '] + name + seq![' '] + rest;
    text::lemma_first_where_is(line, text::ink(), indent.len() as int);
    assert(text::trimmed_start(line) =~= t);
    text::lemma_first_where_is(t, text::space(), 6);
    assert(t.take(6) =~= flags);
    let after = t.skip(7);
    assert(after =~= name + seq![' '] + rest);
    text::lemma_first_where_is(after, text::space(), name.len() as int);
    assert(after.take(name.len() as int) =~= name);
    vstd::utf8::is_ascii_chars_encode_utf8(flags);
}

/// A line whose first word is not six bytes long, or is for something else, lists
/// no encoder. So it is with the headings.
pub proof fn other_lines_list_no_encoder(line: Seq<char>)
    ensures
        encoder_in_line(line) is Some ==> {
            let t = text::trimmed_start(line);
            &&& exists|n: int|
                {
                    &&& 0 < n < t.len()
                    &&& text::white(#[trigger] t[n])
                    &&& vstd::utf8::encode_utf8(t.take(n)).len() == 6
                }
            &&& t[0] == 'V' || t[0] == 'A' || t[0] == 'S'
        },
{
    let t = text::trimmed_start(line);
    text::lemma_first_where(t, text::space());
    let n = text::first_where(t, text::space());
    if encoder_in_line(line) is Some {
        assert(text::white(t[n]));
        assert(t.take(n)[0] == t[0]);
    }
}

/// The encoders of a list are those of its lines, one after the other.
pub proof fn encoders_are_listed_line_by_line(front: Seq<Seq<char>>, back: Seq<Seq<char>>)
    ensures
        encoders_in(front + back) == encoders_in(front) + encoders_in(back),
        back.len() == 1 ==> encoders_in(back) == match encoder_in_line(back[0]) {
            Some(name) => seq![name],
            None => Seq::<Seq<char>>::empty(),
        },
    decreases back.len(),
{
    if back.len() == 0 {
        assert(front + back =~= front);
        assert(encoders_in(front) + encoders_in(back) =~= encoders_in(front));
    } else {
        encoders_are_listed_line_by_line(front, back.drop_last());
        assert((front + back).drop_last() =~= front + back.drop_last());
        assert(encoders_in(front + back) =~= encoders_in(front) + encoders_in(back));
        if back.len() == 1 {
            assert(back.drop_last() =~= Seq::empty());
            assert(encoders_in(back.drop_last()) =~= Seq::empty());
            if encoder_in_line(back[0]) is Some {
                assert(encoders_in(back) =~= seq![encoder_in_line(back[0])->0]);
            }
        }
    }
}

/// An option stands in a list of arguments with this value behind it.
pub open spec fn set_to(args: Seq<Seq<char>>, option: Seq<char>, value: Seq<char>) -> bool {
    exists|i: int|
        0 <= i && i + 1 < args.len() && #[trigger] args[i] == option && args[i + 1] == value
}

/// A trial encodes one frame with the encoder that is tried, in the format of
/// that encoder, into the null device. Frames are converted for encoders that
/// do not run in hardware, and only for them.
pub proof fn trials_try_the_encoder(encoder: Seq<char>, windows: bool)
    ensures
        set_to(probe_arguments(encoder, windows), "-c:v"@, encoder),
        set_to(probe_arguments(encoder, windows), "-frames:v"@, "1"@),
        set_to(probe_arguments(encoder, windows), "-f"@, format_for(encoder)),
        set_to(probe_arguments(encoder, windows), "-map"@, "[vout]"@),
        set_to(
            probe_arguments(encoder, windows),
            "-filter_complex"@,
            if hardware(encoder) {
                "ddagrab=framerate=5[vout]"@
            } else {
                "ddagrab=framerate=5,format=bgra,format=yuv420p[vout]"@
            },
        ),
        probe_arguments(encoder, windows).last() == if windows {
            "NUL"@
        } else {
            "/dev/null"@
        },
{
    let args = probe_arguments(encoder, windows);
    assert(args[9] == "-c:v"@ && args[10] == encoder);
    assert(args[7] == "-frames:v"@ && args[8] == "1"@);
    assert(args[11] == "-f"@ && args[12] == format_for(encoder));
    assert(args[5] == "-map"@ && args[6] == "[vout]"@);
    assert(args[3] == "-filter_complex"@);
}

/// A trial that runs is waited for up to fifteen seconds. One that has ended is
/// taken at its word, and one that cannot be watched has failed.
pub proof fn trials_take_fifteen_seconds(elapsed_nanos: u128, success: bool)
    ensures
        probe_after(ProbePoll::Running, elapsed_nanos) == if elapsed_nanos <= 15 * 1_000_000_000 {
            ProbeAction::Wait
        } else {
            ProbeAction::GiveUp
        },
        probe_after(ProbePoll::Exited(success), elapsed_nanos) == ProbeAction::Answer(success),
        probe_after(ProbePoll::Failed, elapsed_nanos) == ProbeAction::Answer(false),
        PROBE_POLL_MILLIS == 100,
{
}

/// The format of an encoder is told by how its name begins: by `hevc`, by `h264`
/// or, for one encoder alone, by the whole name. All others get a container.
pub proof fn formats_go_by_the_beginning(encoder: Seq<char>, rest: Seq<char>)
    ensures
        format_for("hevc"@ + rest) == "hevc"@,
        format_for("h264"@ + rest) == "h264"@,
        format_for("libopenh264"@) == "h264"@,
        format_for(encoder) == "hevc"@ ==> encoder.len() >= 4 && encoder.take(4) == "hevc"@,
        format_for(encoder) == "h264"@ ==> encoder == "libopenh264"@ || encoder.len() >= 4
            && encoder.take(4) == "h264"@,
        format_for(encoder) == "hevc"@ || format_for(encoder) == "h264"@ || format_for(encoder)
            == "ivf"@,
{
    reveal_strlit("hevc");
    reveal_strlit("h264");
    reveal_strlit("ivf");
    reveal_strlit("libopenh264");
    let a = "hevc"@ + rest;
    let b = "h264"@ + rest;
    assert(a.subrange(0, 4) =~= "hevc"@);
    assert(b.subrange(0, 4) =~= "h264"@);
    assert("hevc"@[1] == 'e' && "h264"@[1] == '2' && "ivf"@.len() == 3);
    assert(b.subrange(0, 4)[1] == '2');
    assert("libopenh264"@.subrange(0, 4)[0] == 'l');
    assert("hevc"@[0] == 'h' && "h264"@[0] == 'h');
    if encoder.len() >= 4 {
        assert(encoder.take(4) =~= encoder.subrange(0, 4));
    }
}

} // verus!
