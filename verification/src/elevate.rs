//! Starting ffmpeg with the rights of the system account, on Windows.
//!
//! Only with these rights can the desktop be captured on which Windows asks for
//! consent. PAExec gives them, to a process that has administrator rights
//! itself; everywhere else ffmpeg is started normally.
use vstd::prelude::*;
use vstd::string::*;

use crate::downloader::DownloadFailure;
use crate::error;
use crate::error::Error;
use crate::paths::Under;
use crate::text;

verus! {

/// With which rights a pipeline starts ffmpeg.
#[derive(Debug, Clone, Copy, PartialEq, Eq, Structural)]
pub enum ElevationMode {
    /// Those of the current process.
    Normal,
    /// Those of the system account, and where that fails those of the current
    /// process.
    PreferSystem,
}

impl Default for ElevationMode {
    fn default() -> (r: Self)
        ensures
            r == ElevationMode::Normal,
    {
        ElevationMode::Normal
    }
}

// ---------------------------------------------------------------------------
// PAExec
// ---------------------------------------------------------------------------

/// Where PAExec is put in the directory of the tools.
pub open spec fn paexec_path() -> Seq<Seq<char>> {
    seq!["paexec.exe"@]
}

/// Where PAExec is put in the directory of the tools.
pub fn bundled_paexec_path<P>(dest_dir: P) -> (r: Under<P>)
    ensures
        r.leads(dest_dir, paexec_path()),
{
    let names = vec!["paexec.exe"];
    assert(text::str_texts(names@) =~= paexec_path());
    Under::new(dest_dir, names)
}

/// Whether PAExec has been downloaded. `is_file` tells whether there is a file
/// at a path.
pub fn is_paexec_installed<P, F: FnOnce(&Under<P>) -> bool>(dest_dir: P, is_file: F) -> (r: bool)
    requires
        forall|path: Under<P>|
            path.leads(dest_dir, paexec_path()) ==> #[trigger] call_requires(is_file, (&path,)),
    ensures
        exists|path: Under<P>|
            path.leads(dest_dir, paexec_path()) && #[trigger] call_ensures(is_file, (&path,), r),
{
    let path = bundled_paexec_path(dest_dir);
    is_file(&path)
}

/// The address of PAExec.
pub open spec fn paexec_url() -> Seq<char> {
    "https://www.poweradmin.com/paexec/paexec.exe"@
}

/// What came of the last action while PAExec is got.
pub enum PaexecEvent {
    /// It is asked for.
    Begin,
    /// Whether it is there.
    Looked(bool),
    /// The directory of the tools was made, or not for this reason.
    MadeDir(Result<(), String>),
    Downloaded(Result<(), DownloadFailure>),
}

/// What is to be done next to get PAExec.
pub enum PaexecAction {
    /// Look whether it is there.
    Look,
    /// Make the directory of the tools.
    MakeDir,
    /// Download it from this address.
    Download(String),
    /// It is there.
    Done,
    Fail(Error),
}

/// An action in the model.
#[verifier::ext_equal]
pub enum PaexecMove {
    Look,
    MakeDir,
    Download(Seq<char>),
    Done,
    Fail(Seq<char>),
}

impl View for PaexecAction {
    type V = PaexecMove;

    open spec fn view(&self) -> PaexecMove {
        match *self {
            PaexecAction::Look => PaexecMove::Look,
            PaexecAction::MakeDir => PaexecMove::MakeDir,
            PaexecAction::Download(url) => PaexecMove::Download(url@),
            PaexecAction::Done => PaexecMove::Done,
            PaexecAction::Fail(e) => PaexecMove::Fail(e@),
        }
    }
}

/// What follows an event. PAExec is downloaded only where it is not there, and
/// there is none but for Windows.
pub open spec fn paexec_after(windows: bool, dest_dir: Seq<char>, event: PaexecEvent) -> PaexecMove {
    if !windows {
        PaexecMove::Fail("paexec/SYSTEM elevation is only supported on Windows"@)
    } else {
        match event {
            PaexecEvent::Begin => PaexecMove::Look,
            PaexecEvent::Looked(there) => if there {
                PaexecMove::Done
            } else {
                PaexecMove::MakeDir
            },
            PaexecEvent::MadeDir(Ok(_)) => PaexecMove::Download(paexec_url()),
            PaexecEvent::MadeDir(Err(e)) => PaexecMove::Fail(
                error::at_path("failed to create "@, dest_dir, e@),
            ),
            PaexecEvent::Downloaded(Ok(_)) => PaexecMove::Done,
            PaexecEvent::Downloaded(Err(DownloadFailure::Request(e))) => PaexecMove::Fail(
                "paexec.exe download failed: "@ + e@,
            ),
            PaexecEvent::Downloaded(Err(DownloadFailure::Create(path, e))) => PaexecMove::Fail(
                error::at_path("failed to create "@, path@, e@),
            ),
            PaexecEvent::Downloaded(Err(DownloadFailure::Write(path, e))) => PaexecMove::Fail(
                error::at_path("failed to write "@, path@, e@),
            ),
        }
    }
}

/// Makes sure that PAExec is in the directory of the tools: takes what came of
/// the last action and says what is to be done next. `dest_dir` is the
/// directory as it is shown in messages.
pub fn ensure_paexec(windows: bool, dest_dir: &str, event: PaexecEvent) -> (r: PaexecAction)
    ensures
        r@ == paexec_after(windows, dest_dir@, event),
{
    if !windows {
        return PaexecAction::Fail(
            Error::new("paexec/SYSTEM elevation is only supported on Windows"),
        );
    }
    match event {
        PaexecEvent::Begin => PaexecAction::Look,
        PaexecEvent::Looked(there) => if there {
            PaexecAction::Done
        } else {
            PaexecAction::MakeDir
        },
        PaexecEvent::MadeDir(Ok(_)) => PaexecAction::Download(
            "https://www.poweradmin.com/paexec/paexec.exe".to_owned(),
        ),
        PaexecEvent::MadeDir(Err(e)) => PaexecAction::Fail(
            Error::at("failed to create ", dest_dir, e.as_str()),
        ),
        PaexecEvent::Downloaded(Ok(_)) => PaexecAction::Done,
        PaexecEvent::Downloaded(Err(DownloadFailure::Request(e))) => PaexecAction::Fail(
            Error::about("paexec.exe download failed: ", e.as_str()),
        ),
        PaexecEvent::Downloaded(Err(DownloadFailure::Create(path, e))) => PaexecAction::Fail(
            Error::at("failed to create ", path.as_str(), e.as_str()),
        ),
        PaexecEvent::Downloaded(Err(DownloadFailure::Write(path, e))) => PaexecAction::Fail(
            Error::at("failed to write ", path.as_str(), e.as_str()),
        ),
    }
}

// ---------------------------------------------------------------------------
// The stub
// ---------------------------------------------------------------------------

/// Where the embedded stub is put in the directory of the tools.
pub open spec fn stub_path() -> Seq<Seq<char>> {
    seq!["ffmpeg_stub.exe"@]
}

/// Where the embedded stub is put in the directory of the tools.
pub fn embedded_stub_path<P>(tools_dir: P) -> (r: Under<P>)
    ensures
        r.leads(tools_dir, stub_path()),
{
    let names = vec!["ffmpeg_stub.exe"];
    assert(text::str_texts(names@) =~= stub_path());
    Under::new(tools_dir, names)
}

/// What came of the last action while the stub is put in place.
pub enum StubEvent {
    /// It is asked for; whether a path for it is given.
    Begin(bool),
    /// Whether there is a file at the given path, and the path as it is shown.
    LookedAtGiven(bool, String),
    /// The directory of the tools was made, or not for this reason.
    MadeDir(Result<(), String>),
    /// What the stub in that directory holds, where it could be read.
    Read(Option<Vec<u8>>),
    /// It was written, or not: the path as it is shown, and the reason.
    Wrote(Result<(), (String, String)>),
}

/// What is to be done next to put the stub in place.
pub enum StubAction {
    /// Look for a file at the given path.
    LookAtGiven,
    /// Use the given path.
    UseGiven,
    /// Make the directory of the tools.
    MakeDir,
    /// Read the stub in that directory, which `embedded_stub_path` leads to.
    Read,
    /// Write the embedded stub there.
    Write,
    /// Use the stub there.
    UseEmbedded,
    Fail(Error),
}

/// An action in the model.
#[verifier::ext_equal]
pub enum StubMove {
    LookAtGiven,
    UseGiven,
    MakeDir,
    Read,
    Write,
    UseEmbedded,
    Fail(Seq<char>),
}

impl View for StubAction {
    type V = StubMove;

    open spec fn view(&self) -> StubMove {
        match *self {
            StubAction::LookAtGiven => StubMove::LookAtGiven,
            StubAction::UseGiven => StubMove::UseGiven,
            StubAction::MakeDir => StubMove::MakeDir,
            StubAction::Read => StubMove::Read,
            StubAction::Write => StubMove::Write,
            StubAction::UseEmbedded => StubMove::UseEmbedded,
            StubAction::Fail(e) => StubMove::Fail(e@),
        }
    }
}

/// What follows an event. The embedded stub is written only where what is there
/// differs from it.
pub open spec fn stub_after(
    tools_dir: Seq<char>,
    embedded: Seq<u8>,
    event: StubEvent,
) -> StubMove {
    match event {
        StubEvent::Begin(given) => if given {
            StubMove::LookAtGiven
        } else {
            StubMove::MakeDir
        },
        StubEvent::LookedAtGiven(there, path) => if there {
            StubMove::UseGiven
        } else {
            StubMove::Fail("ffmpeg_stub not found at explicit path "@ + path@)
        },
        StubEvent::MadeDir(Ok(_)) => StubMove::Read,
        StubEvent::MadeDir(Err(e)) => StubMove::Fail(
            error::at_path("failed to create "@, tools_dir, e@),
        ),
        StubEvent::Read(Some(existing)) => if existing@ == embedded {
            StubMove::UseEmbedded
        } else {
            StubMove::Write
        },
        StubEvent::Read(None) => StubMove::Write,
        StubEvent::Wrote(Ok(_)) => StubMove::UseEmbedded,
        StubEvent::Wrote(Err((path, e))) => StubMove::Fail(
            error::at_path("failed to write embedded ffmpeg_stub to "@, path@, e@),
        ),
    }
}

fn same_bytes(a: &[u8], b: &[u8]) -> (r: bool)
    ensures
        r == (a@ == b@),
{
    if a.len() != b.len() {
        return false;
    }
    let mut i: usize = 0;
    while i < a.len()
        invariant
            0 <= i <= a@.len(),
            a@.len() == b@.len(),
            forall|j: int| 0 <= j < i ==> a@[j] == b@[j],
        decreases a@.len() - i,
    {
        if a[i] != b[i] {
            return false;
        }
        i += 1;
    }
    assert(a@ =~= b@);
    true
}

/// Puts the stub in place: takes what came of the last action and says what is
/// to be done next. `tools_dir` is the directory as it is shown in messages.
pub fn ensure_ffmpeg_stub(tools_dir: &str, embedded: &[u8], event: StubEvent) -> (r: StubAction)
    ensures
        r@ == stub_after(tools_dir@, embedded@, event),
{
    match event {
        StubEvent::Begin(given) => if given {
            StubAction::LookAtGiven
        } else {
            StubAction::MakeDir
        },
        StubEvent::LookedAtGiven(there, path) => if there {
            StubAction::UseGiven
        } else {
            StubAction::Fail(
                Error::about("ffmpeg_stub not found at explicit path ", path.as_str()),
            )
        },
        StubEvent::MadeDir(Ok(_)) => StubAction::Read,
        StubEvent::MadeDir(Err(e)) => StubAction::Fail(
            Error::at("failed to create ", tools_dir, e.as_str()),
        ),
        StubEvent::Read(Some(existing)) => if same_bytes(existing.as_slice(), embedded) {
            StubAction::UseEmbedded
        } else {
            StubAction::Write
        },
        StubEvent::Read(None) => StubAction::Write,
        StubEvent::Wrote(Ok(_)) => StubAction::UseEmbedded,
        StubEvent::Wrote(Err((path, e))) => StubAction::Fail(
            Error::at("failed to write embedded ffmpeg_stub to ", path.as_str(), e.as_str()),
        ),
    }
}

// ---------------------------------------------------------------------------
// Starting ffmpeg
// ---------------------------------------------------------------------------

/// An argument of PAExec. Paths stand for themselves.
#[derive(Debug)]
pub enum ElevatedArg {
    Text(String),
    /// The directory of the program.
    WorkingDir,
    Stub,
    Program,
}

/// An argument in the model.
#[verifier::ext_equal]
pub enum ElevatedView {
    Text(Seq<char>),
    WorkingDir,
    Stub,
    Program,
}

impl View for ElevatedArg {
    type V = ElevatedView;

    open spec fn view(&self) -> ElevatedView {
        match *self {
            ElevatedArg::Text(s) => ElevatedView::Text(s@),
            ElevatedArg::WorkingDir => ElevatedView::WorkingDir,
            ElevatedArg::Stub => ElevatedView::Stub,
            ElevatedArg::Program => ElevatedView::Program,
        }
    }
}

pub open spec fn elevated_views(v: Seq<ElevatedArg>) -> Seq<ElevatedView> {
    v.map_values(|a: ElevatedArg| a@)
}

/// Texts as arguments.
pub open spec fn text_views(v: Seq<Seq<char>>) -> Seq<ElevatedView> {
    v.map_values(|s: Seq<char>| ElevatedView::Text(s))
}

/// PAExec starts the stub in the interactive session, as the system account and
/// in the program's directory. The stub gets the port and the path for key
/// frame requests, and then the program with its arguments.
pub open spec fn elevated_arguments(
    args: Seq<Seq<char>>,
    idr_relay_port: u16,
    idr_control_path: Seq<char>,
) -> Seq<ElevatedView> {
    seq![
        ElevatedView::Text("-i"@),
        ElevatedView::Text("-s"@),
        ElevatedView::Text("-w"@),
        ElevatedView::WorkingDir,
        ElevatedView::Stub,
        ElevatedView::Text(text::decimal(idr_relay_port as nat)),
        ElevatedView::Text(idr_control_path),
        ElevatedView::Program,
    ] + text_views(args)
}

/// The arguments of PAExec that start a program with the rights of the system
/// account. There are none for a program whose path has no directory;
/// `program_path` is that path as it is shown in messages.
pub fn spawn_elevated(
    has_directory: bool,
    program_path: &str,
    args: &Vec<String>,
    idr_relay_port: u16,
    idr_control_path: &str,
) -> (r: Result<Vec<ElevatedArg>, Error>)
    ensures
        match r {
            Ok(list) => has_directory && elevated_views(list@) == elevated_arguments(
                text::texts(args@),
                idr_relay_port,
                idr_control_path@,
            ),
            Err(e) => !has_directory && e@ == "program_path has no parent directory: "@
                + program_path@,
        },
{
    if !has_directory {
        return Err(Error::about("program_path has no parent directory: ", program_path));
    }
    let mut list: Vec<ElevatedArg> = vec![
        ElevatedArg::Text("-i".to_owned()),
        ElevatedArg::Text("-s".to_owned()),
        ElevatedArg::Text("-w".to_owned()),
        ElevatedArg::WorkingDir,
        ElevatedArg::Stub,
        ElevatedArg::Text(text::to_decimal(idr_relay_port as u64)),
        ElevatedArg::Text(idr_control_path.to_owned()),
        ElevatedArg::Program,
    ];
    let ghost head = elevated_views(list@);
    let ghost all = text_views(text::texts(args@));
    let mut i: usize = 0;
    assert(head + all.take(0) =~= head);
    while i < args.len()
        invariant
            0 <= i <= args@.len(),
            all == text_views(text::texts(args@)),
            elevated_views(list@) == head + all.take(i as int),
        decreases args@.len() - i,
    {
        let ghost before = list@;
        list.push(ElevatedArg::Text(args[i].clone()));
        assert(elevated_views(list@) =~= elevated_views(before).push(all[i as int]));
        assert(head + all.take(i + 1) =~= (head + all.take(i as int)).push(all[i as int]));
        i += 1;
    }
    assert(all.take(i as int) =~= all);
    assert(elevated_views(list@) =~= elevated_arguments(
        text::texts(args@),
        idr_relay_port,
        idr_control_path@,
    ));
    Ok(list)
}

/// What starting PAExec came to.
pub fn paexec_spawned<C>(spawned: Result<C, String>) -> (r: Result<C, Error>)
    ensures
        match (r, spawned) {
            (Ok(a), Ok(b)) => a == b,
            (Err(e), Err(reason)) => e@ == "failed to spawn PAExec: "@ + reason@,
            _ => false,
        },
{
    match spawned {
        Ok(child) => Ok(child),
        Err(reason) => Err(Error::about("failed to spawn PAExec: ", reason.as_str())),
    }
}

/// What starting a program with the rights of this process came to.
pub fn spawn_normal<C>(windows: bool, spawned: Result<C, String>) -> (r: Result<C, Error>)
    ensures
        match (r, spawned) {
            (Ok(a), Ok(b)) => a == b,
            (Err(e), Err(reason)) => e@ == (if windows {
                "failed to spawn program normally: "@
            } else {
                "failed to spawn program: "@
            }) + reason@,
            _ => false,
        },
{
    match spawned {
        Ok(child) => Ok(child),
        Err(reason) => if windows {
            Err(Error::about("failed to spawn program normally: ", reason.as_str()))
        } else {
            Err(Error::about("failed to spawn program: ", reason.as_str()))
        },
    }
}

/// Puts the stub and PAExec in place and starts the program through them, each
/// only where what comes before it did not fail.
pub fn try_spawn_elevated<
    Q,
    C,
    S: FnOnce() -> Result<Q, Error>,
    X: FnOnce() -> Result<Q, Error>,
    L: FnOnce(Q, Q) -> Result<C, Error>,
>(ensure_stub: S, ensure_paexec: X, spawn: L) -> (r: Result<C, Error>)
    requires
        call_requires(ensure_stub, ()),
        forall|stub: Q| #[trigger]
            call_ensures(ensure_stub, (), Ok(stub)) ==> call_requires(ensure_paexec, ()),
        forall|paexec: Q, stub: Q| #[trigger]
            call_ensures(ensure_stub, (), Ok(stub)) && #[trigger] call_ensures(
                ensure_paexec,
                (),
                Ok(paexec),
            ) ==> call_requires(spawn, (paexec, stub)),
    ensures
        exists|stub: Result<Q, Error>| #[trigger]
            call_ensures(ensure_stub, (), stub) && match stub {
                Err(e) => r == Err::<C, Error>(e),
                Ok(stub_path) => exists|paexec: Result<Q, Error>| #[trigger]
                    call_ensures(ensure_paexec, (), paexec) && match paexec {
                        Err(e) => r == Err::<C, Error>(e),
                        Ok(paexec_path) => call_ensures(spawn, (paexec_path, stub_path), r),
                    },
            },
{
    let stub_path = match ensure_stub() {
        Ok(path) => path,
        Err(e) => return Err(e),
    };
    let paexec_path = match ensure_paexec() {
        Ok(path) => path,
        Err(e) => return Err(e),
    };
    spawn(paexec_path, stub_path)
}

/// Starts a program with the rights of the system account, and where that fails
/// with those of this process. There is no system account but on Windows, so
/// that elsewhere it is started normally at once.
pub fn spawn_preferring_system<
    C,
    E: FnOnce() -> Result<C, Error>,
    N: FnOnce() -> Result<C, Error>,
>(windows: bool, elevated: E, normal: N) -> (r: Result<C, Error>)
    requires
        windows ==> call_requires(elevated, ()),
        !windows ==> call_requires(normal, ()),
        forall|e: Error| #[trigger]
            call_ensures(elevated, (), Err(e)) ==> call_requires(normal, ()),
    ensures
        windows ==> exists|first: Result<C, Error>| #[trigger]
            call_ensures(elevated, (), first) && match first {
                Ok(child) => r == Ok::<C, Error>(child),
                Err(_) => exists|second: Result<C, Error>| #[trigger]
                    call_ensures(normal, (), second) && match second {
                        Ok(child) => r == Ok::<C, Error>(child),
                        Err(e) => r is Err && r->Err_0@
                            == "failed to spawn program (both elevated and normal attempts failed): "@
                            + e@,
                    },
            },
        !windows ==> call_ensures(normal, (), r),
{
    if !windows {
        return normal();
    }
    match elevated() {
        Ok(child) => Ok(child),
        Err(_) => match normal() {
            Ok(child) => Ok(child),
            Err(e) => Err(
                Error::about(
                    "failed to spawn program (both elevated and normal attempts failed): ",
                    e.message.as_str(),
                ),
            ),
        },
    }
}

// ---------------------------------------------------------------------------
// Laws
// ---------------------------------------------------------------------------

/// PAExec is there once it has been got, because it was found or because it was
/// downloaded. Where it is there, it is looked for and nothing else is done.
pub proof fn present_paexec_is_taken(dest_dir: Seq<char>, event: PaexecEvent)
    ensures
        paexec_after(true, dest_dir, event) is Done <==> match event {
            PaexecEvent::Looked(there) => there,
            PaexecEvent::Downloaded(outcome) => outcome is Ok,
            _ => false,
        },
        paexec_after(true, dest_dir, PaexecEvent::Begin) == PaexecMove::Look,
        paexec_after(true, dest_dir, PaexecEvent::Looked(true)) == PaexecMove::Done,
{
}

/// PAExec is downloaded from its maker only, and only once its directory has been
/// made, which happens only where it was not found. Elsewhere than on Windows it
/// is refused at once.
pub proof fn missing_paexec_is_got(dest_dir: Seq<char>, event: PaexecEvent)
    ensures
        paexec_after(true, dest_dir, event) is Download <==> match event {
            PaexecEvent::MadeDir(outcome) => outcome is Ok,
            _ => false,
        },
        paexec_after(true, dest_dir, event) matches PaexecMove::Download(url) ==> url
            == "https://www.poweradmin.com/paexec/paexec.exe"@,
        paexec_after(true, dest_dir, event) is MakeDir <==> event == PaexecEvent::Looked(false),
        paexec_after(false, dest_dir, event) is Fail,
{
}

/// The stub: a given path is used if there is a file, and else the start fails;
/// the embedded stub never takes its place. Where no path is given, the embedded
/// stub is used once what is in its place is the same byte for byte, or has been
/// written; it is written exactly where it is not the same.
pub proof fn the_stub_in_use_is_the_right_one(
    tools_dir: Seq<char>,
    embedded: Seq<u8>,
    there: bool,
    path: String,
    existing: Vec<u8>,
    event: StubEvent,
)
    ensures
        stub_after(tools_dir, embedded, StubEvent::Begin(true)) == StubMove::LookAtGiven,
        stub_after(tools_dir, embedded, StubEvent::Begin(false)) == StubMove::MakeDir,
        stub_after(tools_dir, embedded, StubEvent::LookedAtGiven(there, path)) is UseGiven
            <==> there,
        stub_after(tools_dir, embedded, StubEvent::LookedAtGiven(there, path)) is Fail <==> !there,
        stub_after(tools_dir, embedded, StubEvent::Read(Some(existing))) is UseEmbedded
            <==> existing@ == embedded,
        stub_after(tools_dir, embedded, StubEvent::Read(Some(existing))) is Write <==> existing@
            != embedded,
        stub_after(tools_dir, embedded, StubEvent::Read(None)) is Write,
        stub_after(tools_dir, embedded, event) is UseEmbedded ==> match event {
            StubEvent::Read(Some(v)) => v@ == embedded,
            StubEvent::Wrote(outcome) => outcome is Ok,
            _ => false,
        },
        stub_after(tools_dir, embedded, event) is Write ==> event is Read,
        stub_after(tools_dir, embedded, event) is UseGiven ==> event is LookedAtGiven,
{
}

/// PAExec runs the stub in the session of the user, as the system account, in
/// the directory of the program; all arguments of the program follow in order.
pub proof fn paexec_runs_the_stub_as_system(args: Seq<Seq<char>>, port: u16, path: Seq<char>, i: int)
    requires
        0 <= i < args.len(),
    ensures
        ({
            let list = elevated_arguments(args, port, path);
            &&& list[0] == ElevatedView::Text("-i"@)
            &&& list[1] == ElevatedView::Text("-s"@)
            &&& list[2] == ElevatedView::Text("-w"@)
            &&& list[3] == ElevatedView::WorkingDir
            &&& list[4] == ElevatedView::Stub
            &&& list[8 + i] == ElevatedView::Text(args[i])
        }),
{
}

} // verus!
