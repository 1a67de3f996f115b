//! Screen capture and encoding around an ffmpeg process.
//!
//! ```text
//! setup                             get the tools
//! enumerate_displays                list the displays
//! MonitorPipeline::new              make a pipeline for one of them
//! subscribe_frames / subscribe_raw  register callbacks
//! start                             start ffmpeg
//! stop                              end it
//! ```
use vstd::prelude::*;

use crate::error::Error;

pub mod archive;
pub mod display;
pub mod display_laws;
pub mod downloader;
pub mod elevate;
pub mod encoder;
pub mod error;
pub mod fanout;
pub mod ffi;
pub mod nal;
pub mod nal_laws;
pub mod paths;
pub mod pipeline;
pub mod session;
pub mod stub;
pub mod text;
pub mod utf16;

verus! {

/// Where the tools are. There is no PAExec but on Windows.
#[derive(Debug)]
pub struct Toolchain<P> {
    pub ffmpeg_path: P,
    pub paexec_path: Option<P>,
}

impl<P: Clone> Clone for Toolchain<P> {
    fn clone(&self) -> (r: Self)
        ensures
            cloned::<P>(self.ffmpeg_path, r.ffmpeg_path),
            cloned::<Option<P>>(self.paexec_path, r.paexec_path),
    {
        Toolchain {
            ffmpeg_path: self.ffmpeg_path.clone(),
            paexec_path: self.paexec_path.clone(),
        }
    }
}

/// What a setup comes to, where getting ffmpeg and PAExec came to this. PAExec
/// is got on Windows only.
pub open spec fn tools_got<P>(
    windows: bool,
    ffmpeg: Result<P, Error>,
    paexec: Result<P, Error>,
) -> Result<Toolchain<P>, Error> {
    match (ffmpeg, paexec) {
        (Err(e), _) => Err(e),
        (Ok(ffmpeg_path), Ok(path)) if windows => Ok(
            Toolchain { ffmpeg_path, paexec_path: Some(path) },
        ),
        (Ok(_), Err(e)) if windows => Err(e),
        (Ok(ffmpeg_path), _) => Ok(Toolchain { ffmpeg_path, paexec_path: None }),
    }
}

/// This came of a setup. PAExec is got only where ffmpeg was.
pub open spec fn set_up<P, F: FnOnce() -> Result<P, Error>, X: FnOnce() -> Result<P, Error>>(
    windows: bool,
    ensure_ffmpeg: F,
    ensure_paexec: X,
    r: Result<Toolchain<P>, Error>,
) -> bool {
    exists|ffmpeg: Result<P, Error>| #[trigger]
        call_ensures(ensure_ffmpeg, (), ffmpeg) && if windows && ffmpeg is Ok {
            exists|paexec: Result<P, Error>| #[trigger]
                call_ensures(ensure_paexec, (), paexec) && r == tools_got(windows, ffmpeg, paexec)
        } else {
            forall|paexec: Result<P, Error>| r == #[trigger] tools_got(windows, ffmpeg, paexec)
        }
}

/// Makes sure that ffmpeg is there, and on Windows PAExec too. Each is got only
/// where it is missing, so that this may be called any number of times.
pub fn setup<P, F: FnOnce() -> Result<P, Error>, X: FnOnce() -> Result<P, Error>>(
    windows: bool,
    ensure_ffmpeg: F,
    ensure_paexec: X,
) -> (r: Result<Toolchain<P>, Error>)
    requires
        call_requires(ensure_ffmpeg, ()),
        forall|path: P|
            windows && #[trigger] call_ensures(ensure_ffmpeg, (), Ok(path)) ==> call_requires(
                ensure_paexec,
                (),
            ),
    ensures
        set_up(windows, ensure_ffmpeg, ensure_paexec, r),
{
    let ffmpeg_path = match ensure_ffmpeg() {
        Ok(path) => path,
        Err(e) => return Err(e),
    };
    let paexec_path = if windows {
        match ensure_paexec() {
            Ok(path) => Some(path),
            Err(e) => return Err(e),
        }
    } else {
        None
    };
    Ok(Toolchain { ffmpeg_path, paexec_path })
}

/// A setup may be repeated. Once one has succeeded, with `events` while ffmpeg
/// was got and `last` as the last event while PAExec was, then the next one, in
/// a directory that still holds both, looks for each and does nothing else, and
/// it gives the same paths. Its looks find what the last look for ffmpeg found,
/// and PAExec at the path that it always has.
pub proof fn setup_may_be_repeated<P>(
    windows: bool,
    config: downloader::EnsureConfig,
    events: Seq<downloader::EnsureEvent<P>>,
    ffmpeg_path: P,
    dest_dir: Seq<char>,
    last: elevate::PaexecEvent,
    paexec_path: P,
)
    requires
        events.len() > 0,
        downloader::ensured(config, events).1.last() == downloader::EnsureMove::Done(ffmpeg_path),
        windows ==> elevate::paexec_after(true, dest_dir, last) is Done,
    ensures
        ({
            let again = seq![downloader::EnsureEvent::Begin, events.last()];
            downloader::ensured(config, again).1 == seq![
                downloader::EnsureMove::Look,
                downloader::EnsureMove::Done(ffmpeg_path),
            ]
        }),
        windows ==> {
            &&& last == elevate::PaexecEvent::Looked(true) || last is Downloaded
            &&& elevate::paexec_after(true, dest_dir, elevate::PaexecEvent::Begin) == elevate::PaexecMove::Look
            &&& elevate::paexec_after(true, dest_dir, elevate::PaexecEvent::Looked(true))
                == elevate::PaexecMove::Done
        },
        tools_got(windows, Ok(ffmpeg_path), Ok(paexec_path)) == Ok::<Toolchain<P>, Error>(
            Toolchain {
                ffmpeg_path,
                paexec_path: if windows {
                    Some(paexec_path)
                } else {
                    None
                },
            },
        ),
{
    downloader::getting_again_gives_the_same(config, events, ffmpeg_path);
    elevate::present_paexec_is_taken(dest_dir, last);
}

/// What was got once is got again from then on.
pub open spec fn gets_again<
    P,
    A: FnOnce() -> Result<P, Error>,
    B: FnOnce() -> Result<P, Error>,
>(first: A, second: B) -> bool {
    forall|path: P, r: Result<P, Error>|
        #![trigger call_ensures(first, (), Ok(path)), call_ensures(second, (), r)]
        call_ensures(first, (), Ok(path)) && call_ensures(second, (), r) ==> r == Ok::<P, Error>(
            path,
        )
}

/// Where a setup has succeeded and each tool that was got is got again, the next
/// setup succeeds with the same paths.
pub proof fn setup_again_gives_the_same_paths<
    P,
    F: FnOnce() -> Result<P, Error>,
    X: FnOnce() -> Result<P, Error>,
    G: FnOnce() -> Result<P, Error>,
    Y: FnOnce() -> Result<P, Error>,
>(
    windows: bool,
    first_ffmpeg: F,
    first_paexec: X,
    tools: Toolchain<P>,
    ensure_ffmpeg: G,
    ensure_paexec: Y,
    r: Result<Toolchain<P>, Error>,
)
    requires
        set_up(windows, first_ffmpeg, first_paexec, Ok(tools)),
        set_up(windows, ensure_ffmpeg, ensure_paexec, r),
        gets_again(first_ffmpeg, ensure_ffmpeg),
        windows ==> gets_again(first_paexec, ensure_paexec),
    ensures
        r == Ok::<Toolchain<P>, Error>(tools),
        tools.paexec_path is Some <==> windows,
{
    let ffmpeg = choose|ffmpeg: Result<P, Error>| #[trigger]
        call_ensures(first_ffmpeg, (), ffmpeg) && if windows && ffmpeg is Ok {
            exists|paexec: Result<P, Error>| #[trigger]
                call_ensures(first_paexec, (), paexec) && Ok::<Toolchain<P>, Error>(tools)
                    == tools_got(windows, ffmpeg, paexec)
        } else {
            forall|paexec: Result<P, Error>|
                Ok::<Toolchain<P>, Error>(tools) == #[trigger] tools_got(windows, ffmpeg, paexec)
        };
    assert(ffmpeg is Err ==> tools_got(windows, ffmpeg, ffmpeg) is Err);
    let again = choose|again: Result<P, Error>| #[trigger]
        call_ensures(ensure_ffmpeg, (), again) && if windows && again is Ok {
            exists|paexec: Result<P, Error>| #[trigger]
                call_ensures(ensure_paexec, (), paexec) && r == tools_got(windows, again, paexec)
        } else {
            forall|paexec: Result<P, Error>| r == #[trigger] tools_got(windows, again, paexec)
        };
    assert(again == ffmpeg);
    if !windows {
        assert(r == tools_got(windows, again, again));
        assert(Ok::<Toolchain<P>, Error>(tools) == tools_got(windows, ffmpeg, again));
    }
}

/// Without ffmpeg a setup fails, for the reason that ffmpeg could not be got. On
/// Windows it fails without PAExec too, and elsewhere PAExec plays no part.
pub proof fn setup_fails_for_the_first_reason<P>(
    ffmpeg: Result<P, Error>,
    paexec: Result<P, Error>,
    windows: bool,
)
    ensures
        ffmpeg matches Err(e) ==> tools_got(windows, ffmpeg, paexec) == Err::<Toolchain<P>, Error>(
            e,
        ),
        ffmpeg is Ok && windows ==> (paexec matches Err(e) ==> tools_got(windows, ffmpeg, paexec)
            == Err::<Toolchain<P>, Error>(e)),
        ffmpeg is Ok && !windows ==> tools_got(windows, ffmpeg, paexec) is Ok,
        ffmpeg is Ok && paexec is Ok ==> tools_got(windows, ffmpeg, paexec) is Ok,
        tools_got(windows, ffmpeg, paexec) matches Ok(tools) ==> ffmpeg == Ok::<P, Error>(
            tools.ffmpeg_path,
        ) && tools.paexec_path == (if windows {
            Some(paexec->Ok_0)
        } else {
            None
        }),
{
}

} // verus!
