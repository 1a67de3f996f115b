//! Getting ffmpeg: from the latest release of a build that can be asked for key
//! frames, or from an archive that is built in.
use vstd::prelude::*;
use vstd::string::*;

use crate::error;
use crate::error::Error;
use crate::paths::Under;
use crate::text;

verus! {

/// The repository whose releases hold the builds.
pub open spec fn repository() -> Seq<char> {
    "mattuu0/ffmpeg-builder"@
}

/// A release, as its list of files.
#[derive(Debug)]
pub struct Release {
    pub assets: Vec<Asset>,
}

/// One file of a release.
#[derive(Debug)]
pub struct Asset {
    pub name: String,
    pub browser_download_url: String,
}

/// The name of a platform in the names of the builds.
pub open spec fn platform_name(os: Seq<char>) -> Option<Seq<char>> {
    if os == "windows"@ || os == "macos"@ || os == "linux"@ {
        Some(os)
    } else {
        None
    }
}

/// The name of the platform for an operating system.
pub fn detect_platform(os: &str) -> (r: Result<&'static str, Error>)
    ensures
        match r {
            Ok(name) => platform_name(os@) == Some(name@),
            Err(e) => platform_name(os@) is None && e@ == "unsupported OS: "@ + os@,
        },
{
    if text::same(os, "windows") {
        Ok("windows")
    } else if text::same(os, "macos") {
        Ok("macos")
    } else if text::same(os, "linux") {
        Ok("linux")
    } else {
        Err(Error::about("unsupported OS: ", os))
    }
}

/// The name of an architecture in the names of the builds.
pub open spec fn arch_name(arch: Seq<char>) -> Option<Seq<char>> {
    if arch == "x86_64"@ {
        Some("amd64"@)
    } else if arch == "aarch64"@ {
        Some("arm64"@)
    } else {
        None
    }
}

/// The name of the architecture for a processor.
pub fn detect_arch(arch: &str) -> (r: Result<&'static str, Error>)
    ensures
        match r {
            Ok(name) => arch_name(arch@) == Some(name@),
            Err(e) => arch_name(arch@) is None && e@ == "unsupported architecture: "@ + arch@,
        },
{
    if text::same(arch, "x86_64") {
        Ok("amd64")
    } else if text::same(arch, "aarch64") {
        Ok("arm64")
    } else {
        Err(Error::about("unsupported architecture: ", arch))
    }
}

/// The file name of ffmpeg.
pub open spec fn binary_name(windows: bool) -> Seq<char> {
    if windows {
        "ffmpeg.exe"@
    } else {
        "ffmpeg"@
    }
}

/// The file name of ffmpeg.
pub fn ffmpeg_binary_name(windows: bool) -> (r: &'static str)
    ensures
        r@ == binary_name(windows),
{
    if windows {
        "ffmpeg.exe"
    } else {
        "ffmpeg"
    }
}

/// The address of the latest release.
pub fn latest_release_url() -> (r: String)
    ensures
        r@ == "https://api.github.com/repos/"@ + repository() + "/releases/latest"@,
{
    let mut url = "https://api.github.com/repos/".to_owned();
    url.append("mattuu0/ffmpeg-builder");
    url.append("/releases/latest");
    url
}

/// The file name of the build for a platform and an architecture.
pub open spec fn build_name(platform: Seq<char>, arch: Seq<char>) -> Seq<char> {
    "ffmpeg-"@ + platform + "-"@ + arch + "-binary-only.zip"@
}

/// The message that a release has no file of this name.
pub open spec fn no_asset(wanted: Seq<char>) -> Seq<char> {
    "no asset named \""@ + wanted + "\" in latest release"@
}

/// The first file of a release with this name.
pub open spec fn asset_named(assets: Seq<Asset>, wanted: Seq<char>) -> Option<Asset>
    decreases assets.len(),
{
    if assets.len() == 0 {
        None
    } else if assets[0].name@ == wanted {
        Some(assets[0])
    } else {
        asset_named(assets.skip(1), wanted)
    }
}

/// Finds the build for a platform and an architecture: the first file with its
/// name.
pub fn pick_asset<'a>(release: &'a Release, platform: &str, arch: &str) -> (r: Result<
    &'a Asset,
    Error,
>)
    ensures
        match (r, asset_named(release.assets@, build_name(platform@, arch@))) {
            (Ok(asset), found) => found == Some(*asset),
            (Err(e), found) => found is None && e@ == no_asset(build_name(platform@, arch@)),
        },
{
    let mut wanted = "ffmpeg-".to_owned();
    wanted.append(platform);
    wanted.append("-");
    wanted.append(arch);
    wanted.append("-binary-only.zip");
    let ghost all = release.assets@;
    let mut i: usize = 0;
    assert(all.skip(0) =~= all);
    while i < release.assets.len()
        invariant
            0 <= i <= release.assets@.len(),
            all == release.assets@,
            wanted@ == build_name(platform@, arch@),
            asset_named(all, wanted@) == asset_named(all.skip(i as int), wanted@),
        decreases release.assets@.len() - i,
    {
        let asset = &release.assets[i];
        assert(all.skip(i as int)[0] == *asset);
        assert(all.skip(i as int).skip(1) =~= all.skip(i + 1));
        if text::same(asset.name.as_str(), wanted.as_str()) {
            return Ok(asset);
        }
        i += 1;
    }
    let mut message = "no asset named \"".to_owned();
    message.append(wanted.as_str());
    message.append("\" in latest release");
    Err(Error { message })
}

// ---------------------------------------------------------------------------
// Finding ffmpeg
// ---------------------------------------------------------------------------

/// Where ffmpeg stands below a directory.
pub open spec fn binary_path(windows: bool) -> Seq<Seq<char>> {
    seq!["bin"@, binary_name(windows)]
}

/// There is, or is not, a file where ffmpeg would stand below this directory.
pub open spec fn binary_under<P, E: Fn(&Under<P>) -> bool>(
    is_there: E,
    dir: P,
    windows: bool,
    found: bool,
) -> bool {
    exists|path: Under<P>|
        path.leads(dir, binary_path(windows)) && #[trigger] call_ensures(is_there, (&path,), found)
}

/// There is none below any of these directories.
pub open spec fn missing_in<P, E: Fn(&Under<P>) -> bool>(
    is_there: E,
    dirs: Seq<P>,
    windows: bool,
) -> bool {
    forall|j: int| 0 <= j < dirs.len() ==> binary_under(is_there, #[trigger] dirs[j], windows, false)
}

/// What looking for ffmpeg in a directory and then in its entries comes to.
pub open spec fn looked<P, E: Fn(&Under<P>) -> bool, L: FnOnce() -> Vec<P>>(
    dest_dir: P,
    windows: bool,
    is_there: E,
    entries: L,
    r: Option<Under<P>>,
) -> bool {
    match r {
        Some(path) => call_ensures(is_there, (&path,), true) && (path.leads(
            dest_dir,
            binary_path(windows),
        ) || binary_under(is_there, dest_dir, windows, false) && exists|dirs: Vec<P>, i: int|
            #![trigger call_ensures(entries, (), dirs), dirs@[i]]
            call_ensures(entries, (), dirs) && 0 <= i < dirs@.len() && path.leads(
                dirs@[i],
                binary_path(windows),
            ) && missing_in(is_there, dirs@.take(i), windows)),
        None => binary_under(is_there, dest_dir, windows, false) && exists|dirs: Vec<P>| #[trigger]
            call_ensures(entries, (), dirs) && missing_in(is_there, dirs@, windows),
    }
}

fn binary_in<P>(dir: P, windows: bool) -> (r: Under<P>)
    ensures
        r.leads(dir, binary_path(windows)),
{
    let names = vec!["bin", ffmpeg_binary_name(windows)];
    assert(text::str_texts(names@) =~= binary_path(windows));
    Under::new(dir, names)
}

/// Finds ffmpeg in a directory, or else in one of its entries, which `entries`
/// lists where the directory can be read. `is_there` tells whether there is
/// something at a path.
pub fn find_ffmpeg_binary<P, E: Fn(&Under<P>) -> bool, L: FnOnce() -> Vec<P>>(
    dest_dir: P,
    windows: bool,
    is_there: E,
    entries: L,
) -> (r: Option<Under<P>>)
    requires
        forall|path: Under<P>|
            path.leads(dest_dir, binary_path(windows)) ==> #[trigger] call_requires(
                is_there,
                (&path,),
            ),
        binary_under(is_there, dest_dir, windows, false) ==> call_requires(entries, ()),
        forall|path: Under<P>, dirs: Vec<P>, i: int|
            #![trigger call_requires(is_there, (&path,)), call_ensures(entries, (), dirs), dirs@[i]]
            call_ensures(entries, (), dirs) && 0 <= i < dirs@.len() && path.leads(
                dirs@[i],
                binary_path(windows),
            ) && missing_in(is_there, dirs@.take(i), windows) ==> call_requires(
                is_there,
                (&path,),
            ),
    ensures
        looked(dest_dir, windows, is_there, entries, r),
{
    let direct = binary_in(dest_dir, windows);
    if is_there(&direct) {
        return Some(direct);
    }
    assert(binary_under(is_there, dest_dir, windows, false));
    let dirs = entries();
    let ghost all = dirs;
    for dir in it: dirs
        invariant
            it.seq() == all@,
            call_ensures(entries, (), all),
            binary_under(is_there, dest_dir, windows, false),
            forall|path: Under<P>, dirs: Vec<P>, i: int|
                #![trigger call_requires(is_there, (&path,)), call_ensures(entries, (), dirs), dirs@[i]]
                call_ensures(entries, (), dirs) && 0 <= i < dirs@.len() && path.leads(
                    dirs@[i],
                    binary_path(windows),
                ) && missing_in(is_there, dirs@.take(i), windows) ==> call_requires(
                    is_there,
                    (&path,),
                ),
            missing_in(is_there, all@.take(it.index() as int), windows),
    {
        let ghost here = it.index() as int;
        assert(dir == all@[here]);
        let candidate = binary_in(dir, windows);
        if is_there(&candidate) {
            return Some(candidate);
        }
        assert(binary_under(is_there, all@[here], windows, false));
        assert(all@.take(here + 1) =~= all@.take(here).push(all@[here]));
    }
    assert(all@.take(all@.len() as int) =~= all@);
    None
}

// ---------------------------------------------------------------------------
// Making sure that it is there
// ---------------------------------------------------------------------------

/// For which machine ffmpeg is got, and how.
#[derive(Debug)]
pub struct EnsureConfig {
    /// Whether an archive is built in.
    pub bundled: bool,
    /// The operating system and the processor, as Rust names them.
    pub os: String,
    pub arch: String,
    pub windows: bool,
    /// The directory that ffmpeg is put into, as it is shown in messages.
    pub dest_dir: String,
}

/// How far it has come.
#[derive(Debug, Clone, Copy, PartialEq, Eq, Structural)]
pub enum EnsureStage {
    Idle,
    /// ffmpeg is looked for.
    Looking,
    /// The directory is made.
    MakingDir,
    /// The latest release is asked for.
    Fetching,
    /// The build is downloaded.
    Downloading,
    /// The archive is extracted.
    Extracting,
    /// The downloaded archive is removed.
    Removing,
    /// ffmpeg is looked for once more.
    LookingAgain,
    Done,
    Failed,
}

/// Why a release could not be got.
#[derive(Debug)]
pub enum FetchFailure {
    Request(String),
    Parse(String),
}

/// Why a file could not be downloaded. A path comes before the reason.
#[derive(Debug)]
pub enum DownloadFailure {
    Request(String),
    Create(String, String),
    Write(String, String),
}

/// Why an archive could not be extracted. A path comes before the reason.
#[derive(Debug)]
pub enum ExtractFailure {
    Open(String, String),
    Extract(Error),
}

/// What came of the last action.
pub enum EnsureEvent<Q> {
    Begin,
    /// Where ffmpeg was found.
    Found(Option<Q>),
    MadeDir(Result<(), String>),
    Fetched(Result<Release, FetchFailure>),
    Downloaded(Result<(), DownloadFailure>),
    Extracted(Result<(), ExtractFailure>),
    /// The downloaded archive was removed, or could not be.
    Removed,
}

/// What is to be done next.
pub enum EnsureAction<Q> {
    /// Look for ffmpeg in the directory.
    Look,
    MakeDir,
    ExtractBundled,
    /// Get the release at this address.
    Fetch(String),
    /// Download from this address into the temporary file of this name.
    Download(String, String),
    /// Extract the temporary file of this name.
    ExtractFile(String),
    /// Remove the temporary file of this name.
    RemoveFile(String),
    /// ffmpeg is here.
    Done(Q),
    Fail(Error),
    /// The event does not belong to this stage, and nothing is done.
    Nothing,
}

/// The state in the model.
#[verifier::ext_equal]
pub struct EnsureView {
    pub stage: EnsureStage,
    pub file_name: Seq<char>,
}

/// An action in the model.
#[verifier::ext_equal]
pub enum EnsureMove<Q> {
    Look,
    MakeDir,
    ExtractBundled,
    Fetch(Seq<char>),
    Download(Seq<char>, Seq<char>),
    ExtractFile(Seq<char>),
    RemoveFile(Seq<char>),
    Done(Q),
    Fail(Seq<char>),
    Nothing,
}

impl<Q> View for EnsureAction<Q> {
    type V = EnsureMove<Q>;

    open spec fn view(&self) -> EnsureMove<Q> {
        match *self {
            EnsureAction::Look => EnsureMove::Look,
            EnsureAction::MakeDir => EnsureMove::MakeDir,
            EnsureAction::ExtractBundled => EnsureMove::ExtractBundled,
            EnsureAction::Fetch(url) => EnsureMove::Fetch(url@),
            EnsureAction::Download(url, name) => EnsureMove::Download(url@, name@),
            EnsureAction::ExtractFile(name) => EnsureMove::ExtractFile(name@),
            EnsureAction::RemoveFile(name) => EnsureMove::RemoveFile(name@),
            EnsureAction::Done(path) => EnsureMove::Done(path),
            EnsureAction::Fail(e) => EnsureMove::Fail(e@),
            EnsureAction::Nothing => EnsureMove::Nothing,
        }
    }
}

impl EnsureView {
    pub open spec fn fresh() -> EnsureView {
        EnsureView { stage: EnsureStage::Idle, file_name: Seq::empty() }
    }

    pub open spec fn at(self, stage: EnsureStage) -> EnsureView {
        EnsureView { stage, ..self }
    }

    pub open spec fn failed<Q>(self, message: Seq<char>) -> (EnsureView, EnsureMove<Q>) {
        (self.at(EnsureStage::Failed), EnsureMove::Fail(message))
    }

    /// What follows once the directory is there.
    pub open spec fn get<Q>(self, config: EnsureConfig) -> (EnsureView, EnsureMove<Q>) {
        if config.bundled {
            (self.at(EnsureStage::Extracting), EnsureMove::ExtractBundled)
        } else if platform_name(config.os@) is None {
            self.failed("unsupported OS: "@ + config.os@)
        } else if arch_name(config.arch@) is None {
            self.failed("unsupported architecture: "@ + config.arch@)
        } else {
            (
                self.at(EnsureStage::Fetching),
                EnsureMove::Fetch(
                    "https://api.github.com/repos/"@ + repository() + "/releases/latest"@,
                ),
            )
        }
    }

    /// What follows once the release is known.
    pub open spec fn choose_build<Q>(self, config: EnsureConfig, release: Release) -> (
        EnsureView,
        EnsureMove<Q>,
    ) {
        let wanted = build_name(platform_name(config.os@)->0, arch_name(config.arch@)->0);
        if platform_name(config.os@) is None {
            self.failed("unsupported OS: "@ + config.os@)
        } else if arch_name(config.arch@) is None {
            self.failed("unsupported architecture: "@ + config.arch@)
        } else {
            match asset_named(release.assets@, wanted) {
                Some(asset) => (
                    EnsureView { stage: EnsureStage::Downloading, file_name: asset.name@ },
                    EnsureMove::Download(asset.browser_download_url@, asset.name@),
                ),
                None => self.failed(no_asset(wanted)),
            }
        }
    }

    /// The state and the action after an event.
    pub open spec fn after<Q>(self, config: EnsureConfig, event: EnsureEvent<Q>) -> (
        EnsureView,
        EnsureMove<Q>,
    ) {
        match (self.stage, event) {
            (EnsureStage::Idle, EnsureEvent::Begin) => (
                self.at(EnsureStage::Looking),
                EnsureMove::Look,
            ),
            (EnsureStage::Looking, EnsureEvent::Found(Some(path))) => (
                self.at(EnsureStage::Done),
                EnsureMove::Done(path),
            ),
            (EnsureStage::Looking, EnsureEvent::Found(None)) => (
                self.at(EnsureStage::MakingDir),
                EnsureMove::MakeDir,
            ),
            (EnsureStage::MakingDir, EnsureEvent::MadeDir(Ok(_))) => self.get(config),
            (EnsureStage::MakingDir, EnsureEvent::MadeDir(Err(e))) => self.failed(
                error::at_path("failed to create "@, config.dest_dir@, e@),
            ),
            (EnsureStage::Fetching, EnsureEvent::Fetched(Ok(release))) => self.choose_build(
                config,
                release,
            ),
            (EnsureStage::Fetching, EnsureEvent::Fetched(Err(FetchFailure::Request(e)))) => {
                self.failed("GitHub API request failed: "@ + e@)
            },
            (EnsureStage::Fetching, EnsureEvent::Fetched(Err(FetchFailure::Parse(e)))) => {
                self.failed("failed to parse GitHub API response: "@ + e@)
            },
            (EnsureStage::Downloading, EnsureEvent::Downloaded(Ok(_))) => (
                self.at(EnsureStage::Extracting),
                EnsureMove::ExtractFile(self.file_name),
            ),
            (EnsureStage::Downloading, EnsureEvent::Downloaded(Err(DownloadFailure::Request(e)))) => {
                self.failed("download failed: "@ + e@)
            },
            (
                EnsureStage::Downloading,
                EnsureEvent::Downloaded(Err(DownloadFailure::Create(path, e))),
            ) => self.failed(error::at_path("failed to create "@, path@, e@)),
            (
                EnsureStage::Downloading,
                EnsureEvent::Downloaded(Err(DownloadFailure::Write(path, e))),
            ) => self.failed(error::at_path("failed to write "@, path@, e@)),
            (EnsureStage::Extracting, EnsureEvent::Extracted(Ok(_))) => if config.bundled {
                (self.at(EnsureStage::LookingAgain), EnsureMove::Look)
            } else {
                (self.at(EnsureStage::Removing), EnsureMove::RemoveFile(self.file_name))
            },
            (
                EnsureStage::Extracting,
                EnsureEvent::Extracted(Err(ExtractFailure::Open(path, e))),
            ) => self.failed(error::at_path("failed to open "@, path@, e@)),
            (EnsureStage::Extracting, EnsureEvent::Extracted(Err(ExtractFailure::Extract(e)))) => {
                self.failed(e@)
            },
            (EnsureStage::Removing, EnsureEvent::Removed) => (
                self.at(EnsureStage::LookingAgain),
                EnsureMove::Look,
            ),
            (EnsureStage::LookingAgain, EnsureEvent::Found(Some(path))) => (
                self.at(EnsureStage::Done),
                EnsureMove::Done(path),
            ),
            (EnsureStage::LookingAgain, EnsureEvent::Found(None)) => self.failed(
                "extraction completed but no bin/"@ + binary_name(config.windows)
                    + " was found under "@ + config.dest_dir@,
            ),
            _ => (self, EnsureMove::Nothing),
        }
    }
}

/// Makes sure that ffmpeg is in its directory: it is looked for, and got only
/// where it is not found.
pub struct EnsureFfmpeg {
    stage: EnsureStage,
    file_name: String,
}

impl View for EnsureFfmpeg {
    type V = EnsureView;

    closed spec fn view(&self) -> EnsureView {
        EnsureView { stage: self.stage, file_name: self.file_name@ }
    }
}

impl EnsureFfmpeg {
    pub fn new() -> (r: EnsureFfmpeg)
        ensures
            r@ == EnsureView::fresh(),
    {
        let r = EnsureFfmpeg { stage: EnsureStage::Idle, file_name: String::new() };
        assert(r@ =~= EnsureView::fresh());
        r
    }

    fn fail<Q>(&mut self, e: Error) -> (r: EnsureAction<Q>)
        ensures
            (final(self)@, r@) == old(self)@.failed::<Q>(e@),
    {
        self.stage = EnsureStage::Failed;
        EnsureAction::Fail(e)
    }

    fn get<Q>(&mut self, config: &EnsureConfig) -> (r: EnsureAction<Q>)
        ensures
            (final(self)@, r@) == old(self)@.get::<Q>(*config),
    {
        if config.bundled {
            self.stage = EnsureStage::Extracting;
            return EnsureAction::ExtractBundled;
        }
        if let Err(e) = detect_platform(config.os.as_str()) {
            return self.fail(e);
        }
        if let Err(e) = detect_arch(config.arch.as_str()) {
            return self.fail(e);
        }
        self.stage = EnsureStage::Fetching;
        EnsureAction::Fetch(latest_release_url())
    }

    fn choose_build<Q>(&mut self, config: &EnsureConfig, release: Release) -> (r: EnsureAction<Q>)
        ensures
            (final(self)@, r@) == old(self)@.choose_build::<Q>(*config, release),
    {
        let platform = match detect_platform(config.os.as_str()) {
            Ok(name) => name,
            Err(e) => return self.fail(e),
        };
        let arch = match detect_arch(config.arch.as_str()) {
            Ok(name) => name,
            Err(e) => return self.fail(e),
        };
        match pick_asset(&release, platform, arch) {
            Ok(asset) => {
                self.stage = EnsureStage::Downloading;
                self.file_name = asset.name.clone();
                EnsureAction::Download(asset.browser_download_url.clone(), asset.name.clone())
            },
            Err(e) => self.fail(e),
        }
    }

    /// Takes what came of the last action and says what is to be done next.
    pub fn step<Q>(&mut self, config: &EnsureConfig, event: EnsureEvent<Q>) -> (r: EnsureAction<Q>)
        ensures
            (final(self)@, r@) == old(self)@.after(*config, event),
    {
        match (self.stage, event) {
            (EnsureStage::Idle, EnsureEvent::Begin) => {
                self.stage = EnsureStage::Looking;
                EnsureAction::Look
            },
            (EnsureStage::Looking, EnsureEvent::Found(Some(path))) => {
                self.stage = EnsureStage::Done;
                EnsureAction::Done(path)
            },
            (EnsureStage::Looking, EnsureEvent::Found(None)) => {
                self.stage = EnsureStage::MakingDir;
                EnsureAction::MakeDir
            },
            (EnsureStage::MakingDir, EnsureEvent::MadeDir(Ok(_))) => self.get(config),
            (EnsureStage::MakingDir, EnsureEvent::MadeDir(Err(e))) => self.fail(
                Error::at("failed to create ", config.dest_dir.as_str(), e.as_str()),
            ),
            (EnsureStage::Fetching, EnsureEvent::Fetched(Ok(release))) => self.choose_build(
                config,
                release,
            ),
            (EnsureStage::Fetching, EnsureEvent::Fetched(Err(FetchFailure::Request(e)))) => {
                self.fail(Error::about("GitHub API request failed: ", e.as_str()))
            },
            (EnsureStage::Fetching, EnsureEvent::Fetched(Err(FetchFailure::Parse(e)))) => {
                self.fail(Error::about("failed to parse GitHub API response: ", e.as_str()))
            },
            (EnsureStage::Downloading, EnsureEvent::Downloaded(Ok(_))) => {
                self.stage = EnsureStage::Extracting;
                EnsureAction::ExtractFile(self.file_name.clone())
            },
            (EnsureStage::Downloading, EnsureEvent::Downloaded(Err(DownloadFailure::Request(e)))) => {
                self.fail(Error::about("download failed: ", e.as_str()))
            },
            (
                EnsureStage::Downloading,
                EnsureEvent::Downloaded(Err(DownloadFailure::Create(path, e))),
            ) => self.fail(Error::at("failed to create ", path.as_str(), e.as_str())),
            (
                EnsureStage::Downloading,
                EnsureEvent::Downloaded(Err(DownloadFailure::Write(path, e))),
            ) => self.fail(Error::at("failed to write ", path.as_str(), e.as_str())),
            (EnsureStage::Extracting, EnsureEvent::Extracted(Ok(_))) => {
                if config.bundled {
                    self.stage = EnsureStage::LookingAgain;
                    EnsureAction::Look
                } else {
                    self.stage = EnsureStage::Removing;
                    EnsureAction::RemoveFile(self.file_name.clone())
                }
            },
            (
                EnsureStage::Extracting,
                EnsureEvent::Extracted(Err(ExtractFailure::Open(path, e))),
            ) => self.fail(Error::at("failed to open ", path.as_str(), e.as_str())),
            (EnsureStage::Extracting, EnsureEvent::Extracted(Err(ExtractFailure::Extract(e)))) => {
                self.fail(e)
            },
            (EnsureStage::Removing, EnsureEvent::Removed) => {
                self.stage = EnsureStage::LookingAgain;
                EnsureAction::Look
            },
            (EnsureStage::LookingAgain, EnsureEvent::Found(Some(path))) => {
                self.stage = EnsureStage::Done;
                EnsureAction::Done(path)
            },
            (EnsureStage::LookingAgain, EnsureEvent::Found(None)) => {
                let mut message = "extraction completed but no bin/".to_owned();
                message.append(ffmpeg_binary_name(config.windows));
                message.append(" was found under ");
                message.append(config.dest_dir.as_str());
                self.fail(Error { message })
            },
            _ => EnsureAction::Nothing,
        }
    }
}

// ---------------------------------------------------------------------------
// Laws
// ---------------------------------------------------------------------------

/// The state and the actions after these events.
pub open spec fn ensured<Q>(config: EnsureConfig, events: Seq<EnsureEvent<Q>>) -> (
    EnsureView,
    Seq<EnsureMove<Q>>,
)
    decreases events.len(),
{
    if events.len() == 0 {
        (EnsureView::fresh(), Seq::empty())
    } else {
        let (before, moves) = ensured(config, events.drop_last());
        let (state, action) = before.after(config, events.last());
        (state, moves.push(action))
    }
}

proof fn lemma_one_more<Q>(config: EnsureConfig, events: Seq<EnsureEvent<Q>>, event: EnsureEvent<Q>)
    ensures
        ensured(config, events.push(event)).0 == ensured(config, events).0.after(config, event).0,
        ensured(config, events.push(event)).1 == ensured(config, events).1.push(
            ensured(config, events).0.after(config, event).1,
        ),
{
    assert(events.push(event).drop_last() =~= events);
}

/// What has ended does nothing more.
pub proof fn ensuring_ends<Q>(state: EnsureView, config: EnsureConfig, event: EnsureEvent<Q>)
    requires
        state.stage == EnsureStage::Done || state.stage == EnsureStage::Failed,
    ensures
        state.after(config, event) == (state, EnsureMove::<Q>::Nothing),
{
}

/// Where ffmpeg is there already, it is looked for and nothing else is done: no
/// directory is made, nothing is downloaded, nothing is extracted.
pub proof fn present_ffmpeg_is_taken<Q>(config: EnsureConfig, path: Q)
    ensures
        ({
            let (state, moves) = ensured(
                config,
                seq![EnsureEvent::Begin, EnsureEvent::Found(Some(path))],
            );
            &&& state.stage == EnsureStage::Done
            &&& moves == seq![EnsureMove::Look, EnsureMove::Done(path)]
        }),
{
    let e0 = Seq::<EnsureEvent<Q>>::empty();
    let e1 = e0.push(EnsureEvent::Begin);
    lemma_one_more(config, e0, EnsureEvent::Begin);
    lemma_one_more(config, e1, EnsureEvent::Found(Some(path)));
    let events = seq![EnsureEvent::Begin, EnsureEvent::Found(Some(path))];
    assert(events =~= e1.push(EnsureEvent::Found(Some(path))));
    assert(ensured(config, events).1 =~= seq![EnsureMove::Look, EnsureMove::Done(path)]);
}

/// Whoever has got ffmpeg once gets the same path again and nothing else is
/// done: the run ended with a look that found it, and where the next look finds
/// the same, that is taken.
pub proof fn getting_again_gives_the_same<Q>(
    config: EnsureConfig,
    events: Seq<EnsureEvent<Q>>,
    path: Q,
)
    requires
        events.len() > 0,
        ensured(config, events).1.last() == EnsureMove::Done(path),
    ensures
        events.last() == EnsureEvent::Found(Some(path)),
        ensured(config, seq![EnsureEvent::Begin, events.last()]).1 == seq![
            EnsureMove::Look,
            EnsureMove::Done(path),
        ],
{
    present_ffmpeg_is_taken(config, path);
}

/// The directories below which ffmpeg stands answer as `there` says, and the
/// directory lists these entries.
pub open spec fn tells_of<P, E: Fn(&Under<P>) -> bool, L: FnOnce() -> Vec<P>>(
    is_there: E,
    entries: L,
    windows: bool,
    there: spec_fn(P) -> bool,
    listed: Seq<P>,
) -> bool {
    &&& forall|path: Under<P>, dir: P, found: bool|
        #![trigger call_ensures(is_there, (&path,), found), path.leads(dir, binary_path(windows))]
        call_ensures(is_there, (&path,), found) && path.leads(dir, binary_path(windows)) ==> found
            == there(dir)
    &&& forall|dirs: Vec<P>| #[trigger] call_ensures(entries, (), dirs) ==> dirs@ == listed
}

/// The first of these directories below which ffmpeg stands.
pub open spec fn first_with<P>(there: spec_fn(P) -> bool, dirs: Seq<P>) -> Option<P>
    decreases dirs.len(),
{
    if dirs.len() == 0 {
        None
    } else if there(dirs[0]) {
        Some(dirs[0])
    } else {
        first_with(there, dirs.skip(1))
    }
}

proof fn lemma_first_with<P>(there: spec_fn(P) -> bool, dirs: Seq<P>, n: int)
    requires
        0 <= n <= dirs.len(),
        forall|j: int| 0 <= j < n ==> !there(#[trigger] dirs[j]),
        n < dirs.len() ==> there(dirs[n]),
    ensures
        first_with(there, dirs) == (if n < dirs.len() {
            Some(dirs[n])
        } else {
            None
        }),
    decreases dirs.len(),
{
    if n > 0 {
        assert(!there(dirs[0]));
        assert forall|j: int| 0 <= j < n - 1 implies !there(#[trigger] dirs.skip(1)[j]) by {
            assert(dirs.skip(1)[j] == dirs[j + 1]);
        }
        lemma_first_with(there, dirs.skip(1), n - 1);
    }
}

/// What is found depends on what is there alone: it stands below the directory
/// itself, or else below the first of its entries that has it. So looking again
/// in a directory that has not changed finds the same.
pub proof fn looking_finds_the_first<P, E: Fn(&Under<P>) -> bool, L: FnOnce() -> Vec<P>>(
    dest_dir: P,
    windows: bool,
    is_there: E,
    entries: L,
    r: Option<Under<P>>,
    there: spec_fn(P) -> bool,
    listed: Seq<P>,
)
    requires
        looked(dest_dir, windows, is_there, entries, r),
        tells_of(is_there, entries, windows, there, listed),
    ensures
        match first_with(there, seq![dest_dir] + listed) {
            Some(dir) => r is Some && r->0.leads(dir, binary_path(windows)),
            None => r is None,
        },
{
    let all = seq![dest_dir] + listed;
    match r {
        Some(path) => {
            if path.leads(dest_dir, binary_path(windows)) {
                lemma_first_with(there, all, 0);
            } else {
                let (dirs, i) = choose|dirs: Vec<P>, i: int|
                    #![trigger call_ensures(entries, (), dirs), dirs@[i]]
                    call_ensures(entries, (), dirs) && 0 <= i < dirs@.len() && path.leads(
                        dirs@[i],
                        binary_path(windows),
                    ) && missing_in(is_there, dirs@.take(i), windows);
                assert forall|j: int| 0 <= j < i + 1 implies !there(#[trigger] all[j]) by {
                    if j > 0 {
                        assert(all[j] == dirs@.take(i)[j - 1]);
                    }
                    assert(binary_under(is_there, all[j], windows, false));
                }
                assert(all[i + 1] == dirs@[i]);
                lemma_first_with(there, all, i + 1);
            }
        },
        None => {
            let dirs = choose|dirs: Vec<P>| #[trigger]
                call_ensures(entries, (), dirs) && missing_in(is_there, dirs@, windows);
            assert forall|j: int| 0 <= j < all.len() implies !there(#[trigger] all[j]) by {
                if j > 0 {
                    assert(all[j] == dirs@[j - 1]);
                }
                assert(binary_under(is_there, all[j], windows, false));
            }
            lemma_first_with(there, all, all.len() as int);
        },
    }
}

/// An action that needs the network.
pub open spec fn over_network<Q>(action: EnsureMove<Q>) -> bool {
    action is Fetch || action is Download
}

/// With an archive built in, the network is never used.
pub proof fn bundled_needs_no_network<Q>(config: EnsureConfig, events: Seq<EnsureEvent<Q>>)
    requires
        config.bundled,
    ensures
        forall|i: int|
            0 <= i < ensured(config, events).1.len() ==> !over_network(
                #[trigger] ensured(config, events).1[i],
            ),
        ensured(config, events).0.stage != EnsureStage::Fetching,
    decreases events.len(),
{
    if events.len() > 0 {
        bundled_needs_no_network(config, events.drop_last());
        let before = ensured(config, events.drop_last()).1;
        let all = ensured(config, events).1;
        assert forall|i: int| 0 <= i < all.len() implies !over_network(#[trigger] all[i]) by {
            if i < before.len() {
                assert(all[i] == before[i]);
            }
        }
    }
}

/// What is downloaded is the build for this machine, and what is extracted and
/// removed is what was downloaded.
pub proof fn the_right_build_is_got<Q>(config: EnsureConfig, events: Seq<EnsureEvent<Q>>)
    requires
        !config.bundled,
    ensures
        ({
            let (state, moves) = ensured(config, events);
            let wanted = build_name(platform_name(config.os@)->0, arch_name(config.arch@)->0);
            &&& forall|i: int|
                0 <= i < moves.len() ==> match #[trigger] moves[i] {
                    EnsureMove::Download(_, name) => name == wanted,
                    EnsureMove::ExtractFile(name) => name == wanted,
                    EnsureMove::RemoveFile(name) => name == wanted,
                    EnsureMove::ExtractBundled => false,
                    _ => true,
                }
            &&& state.stage == EnsureStage::Downloading || state.stage == EnsureStage::Extracting
                ==> state.file_name == wanted
        }),
    decreases events.len(),
{
    if events.len() > 0 {
        the_right_build_is_got(config, events.drop_last());
        let wanted = build_name(platform_name(config.os@)->0, arch_name(config.arch@)->0);
        if let EnsureEvent::Fetched(Ok(release)) = events.last() {
            lemma_asset_named(release.assets@, wanted);
        }
        let before = ensured(config, events.drop_last()).1;
        let all = ensured(config, events).1;
        assert forall|i: int| 0 <= i < all.len() implies match #[trigger] all[i] {
            EnsureMove::Download(_, name) => name == wanted,
            EnsureMove::ExtractFile(name) => name == wanted,
            EnsureMove::RemoveFile(name) => name == wanted,
            EnsureMove::ExtractBundled => false,
            _ => true,
        } by {
            if i < before.len() {
                assert(all[i] == before[i]);
            }
        }
    }
}

proof fn lemma_asset_named(assets: Seq<Asset>, wanted: Seq<char>)
    ensures
        asset_named(assets, wanted) matches Some(asset) ==> asset.name@ == wanted,
    decreases assets.len(),
{
    if assets.len() > 0 {
        lemma_asset_named(assets.skip(1), wanted);
    }
}

/// Where ffmpeg is missing and nothing fails, it is got: from the release, or
/// from the archive that is built in.
pub proof fn missing_ffmpeg_is_got<Q>(config: EnsureConfig, release: Release, path: Q)
    requires
        !config.bundled ==> platform_name(config.os@) is Some && arch_name(config.arch@) is Some
            && asset_named(
            release.assets@,
            build_name(platform_name(config.os@)->0, arch_name(config.arch@)->0),
        ) is Some,
    ensures
        ensured(config, smooth_events(config, release, path)).0.stage == EnsureStage::Done,
        ensured(config, smooth_events(config, release, path)).1 == smooth_moves(
            config,
            release,
            path,
        ),
{
    let wanted = build_name(platform_name(config.os@)->0, arch_name(config.arch@)->0);
    lemma_asset_named(release.assets@, wanted);
    let e0 = Seq::<EnsureEvent<Q>>::empty();
    let e1 = e0.push(EnsureEvent::Begin);
    let e2 = e1.push(EnsureEvent::Found(None));
    let e3 = e2.push(EnsureEvent::MadeDir(Ok(())));
    lemma_one_more(config, e0, EnsureEvent::Begin);
    lemma_one_more(config, e1, EnsureEvent::Found(None));
    lemma_one_more(config, e2, EnsureEvent::MadeDir(Ok(())));
    let events = smooth_events(config, release, path);
    if config.bundled {
        let e4 = e3.push(EnsureEvent::Extracted(Ok(())));
        lemma_one_more(config, e3, EnsureEvent::Extracted(Ok(())));
        lemma_one_more(config, e4, EnsureEvent::Found(Some(path)));
        assert(events =~= e4.push(EnsureEvent::Found(Some(path))));
    } else {
        let e4 = e3.push(EnsureEvent::Fetched(Ok(release)));
        let e5 = e4.push(EnsureEvent::Downloaded(Ok(())));
        let e6 = e5.push(EnsureEvent::Extracted(Ok(())));
        let e7 = e6.push(EnsureEvent::Removed);
        lemma_one_more(config, e3, EnsureEvent::Fetched(Ok(release)));
        lemma_one_more(config, e4, EnsureEvent::Downloaded(Ok(())));
        lemma_one_more(config, e5, EnsureEvent::Extracted(Ok(())));
        lemma_one_more(config, e6, EnsureEvent::Removed);
        lemma_one_more(config, e7, EnsureEvent::Found(Some(path)));
        assert(events =~= e7.push(EnsureEvent::Found(Some(path))));
    }
    assert(ensured(config, events).1 =~= smooth_moves(config, release, path));
}

/// The events where ffmpeg is missing and nothing fails.
pub open spec fn smooth_events<Q>(config: EnsureConfig, release: Release, path: Q) -> Seq<
    EnsureEvent<Q>,
> {
    if config.bundled {
        seq![
            EnsureEvent::Begin,
            EnsureEvent::Found(None),
            EnsureEvent::MadeDir(Ok(())),
            EnsureEvent::Extracted(Ok(())),
            EnsureEvent::Found(Some(path)),
        ]
    } else {
        seq![
            EnsureEvent::Begin,
            EnsureEvent::Found(None),
            EnsureEvent::MadeDir(Ok(())),
            EnsureEvent::Fetched(Ok(release)),
            EnsureEvent::Downloaded(Ok(())),
            EnsureEvent::Extracted(Ok(())),
            EnsureEvent::Removed,
            EnsureEvent::Found(Some(path)),
        ]
    }
}

/// The actions where ffmpeg is missing and nothing fails.
pub open spec fn smooth_moves<Q>(config: EnsureConfig, release: Release, path: Q) -> Seq<
    EnsureMove<Q>,
> {
    let wanted = build_name(platform_name(config.os@)->0, arch_name(config.arch@)->0);
    let asset = asset_named(release.assets@, wanted)->0;
    if config.bundled {
        seq![
            EnsureMove::Look,
            EnsureMove::MakeDir,
            EnsureMove::ExtractBundled,
            EnsureMove::Look,
            EnsureMove::Done(path),
        ]
    } else {
        seq![
            EnsureMove::Look,
            EnsureMove::MakeDir,
            EnsureMove::Fetch(
                "https://api.github.com/repos/"@ + repository() + "/releases/latest"@,
            ),
            EnsureMove::Download(asset.browser_download_url@, wanted),
            EnsureMove::ExtractFile(wanted),
            EnsureMove::RemoveFile(wanted),
            EnsureMove::Look,
            EnsureMove::Done(path),
        ]
    }
}

/// Only Windows, macOS and Linux have builds, and only 64-bit processors of the
/// two common kinds; in the names of the builds these are amd64 and arm64. The
/// parts of a name stand between hyphens.
pub proof fn builds_are_named_after_the_machine(
    os: Seq<char>,
    arch: Seq<char>,
    platform: Seq<char>,
    machine: Seq<char>,
)
    ensures
        platform_name(os) is Some <==> os == "windows"@ || os == "macos"@ || os == "linux"@,
        platform_name(os) is Some ==> platform_name(os)->0 == os,
        arch_name(arch) is Some <==> arch == "x86_64"@ || arch == "aarch64"@,
        arch_name("x86_64"@) == Some("amd64"@),
        arch_name("aarch64"@) == Some("arm64"@),
        build_name(platform, machine) == text::joined_with(
            seq!["ffmpeg"@, platform, machine, "binary-only.zip"@],
            "-"@,
        ),
        binary_name(true) == binary_name(false) + ".exe"@,
        binary_path(true) == seq!["bin"@, "ffmpeg.exe"@],
        binary_path(false) == seq!["bin"@, "ffmpeg"@],
{
    reveal_strlit("x86_64");
    reveal_strlit("aarch64");
    reveal_strlit("ffmpeg-");
    reveal_strlit("ffmpeg");
    reveal_strlit("-");
    reveal_strlit("-binary-only.zip");
    reveal_strlit("binary-only.zip");
    reveal_strlit("ffmpeg.exe");
    reveal_strlit(".exe");
    assert("x86_64"@.len() != "aarch64"@.len());
    let parts = seq!["ffmpeg"@, platform, machine, "binary-only.zip"@];
    let three = parts.drop_last();
    let two = three.drop_last();
    let one = two.drop_last();
    assert(text::joined_with(one, "-"@) =~= "ffmpeg"@);
    assert(text::joined_with(two, "-"@) =~= "ffmpeg"@ + "-"@ + platform);
    assert(text::joined_with(three, "-"@) =~= "ffmpeg"@ + "-"@ + platform + "-"@ + machine);
    assert(build_name(platform, machine) =~= text::joined_with(parts, "-"@));
    assert("ffmpeg.exe"@ =~= "ffmpeg"@ + ".exe"@);
}

/// The file that is found in a release has just the name that is looked for, and
/// is the first such one. Where there is one, one is found.
pub proof fn files_are_found_by_their_name(assets: Seq<Asset>, wanted: Seq<char>)
    ensures
        match asset_named(assets, wanted) {
            Some(asset) => exists|i: int|
                {
                    &&& 0 <= i < assets.len()
                    &&& #[trigger] assets[i] == asset
                    &&& asset.name@ == wanted
                    &&& forall|j: int| 0 <= j < i ==> (#[trigger] assets[j]).name@ != wanted
                },
            None => forall|j: int| 0 <= j < assets.len() ==> (#[trigger] assets[j]).name@ != wanted,
        },
    decreases assets.len(),
{
    if assets.len() > 0 {
        let rest = assets.skip(1);
        if assets[0].name@ == wanted {
            assert(assets[0] == asset_named(assets, wanted)->0);
        } else {
            files_are_found_by_their_name(rest, wanted);
            match asset_named(rest, wanted) {
                Some(asset) => {
                    let i = choose|i: int|
                        {
                            &&& 0 <= i < rest.len()
                            &&& #[trigger] rest[i] == asset
                            &&& asset.name@ == wanted
                            &&& forall|j: int| 0 <= j < i ==> (#[trigger] rest[j]).name@ != wanted
                        };
                    assert(assets[i + 1] == asset);
                    assert forall|j: int| 0 <= j < i + 1 implies (#[trigger] assets[j]).name@
                        != wanted by {
                        if j > 0 {
                            assert(assets[j] == rest[j - 1]);
                        }
                    }
                },
                None => {
                    assert forall|j: int| 0 <= j < assets.len() implies (
                    #[trigger] assets[j]).name@ != wanted by {
                        if j > 0 {
                            assert(assets[j] == rest[j - 1]);
                        }
                    }
                },
            }
        }
    }
}

/// The `i`-th action of a run is that for the `i`-th event.
proof fn lemma_action_at<Q>(config: EnsureConfig, events: Seq<EnsureEvent<Q>>, i: int)
    requires
        0 <= i < events.len(),
    ensures
        ensured(config, events).1.len() == events.len(),
        ensured(config, events).1[i] == ensured(config, events.take(i)).0.after(
            config,
            events[i],
        ).1,
    decreases events.len(),
{
    lemma_as_many(config, events);
    if i < events.len() - 1 {
        let front = events.drop_last();
        lemma_action_at(config, front, i);
        assert(front.take(i) =~= events.take(i));
        assert(ensured(config, events).1[i] == ensured(config, front).1[i]);
    } else {
        lemma_as_many(config, events.drop_last());
        assert(events.take(i) =~= events.drop_last());
    }
}

proof fn lemma_as_many<Q>(config: EnsureConfig, events: Seq<EnsureEvent<Q>>)
    ensures
        ensured(config, events).1.len() == events.len(),
    decreases events.len(),
{
    if events.len() > 0 {
        lemma_as_many(config, events.drop_last());
    }
}

/// Whatever happens: the path that is given out is one that was found; what is
/// downloaded is a file of the release that was fetched, from the address it
/// has there; and the release is the latest one of the builds.
pub proof fn what_is_got_was_found<Q>(config: EnsureConfig, events: Seq<EnsureEvent<Q>>, i: int)
    requires
        0 <= i < events.len(),
    ensures
        match ensured(config, events).1[i] {
            EnsureMove::Done(path) => events[i] == EnsureEvent::Found(Some(path)),
            EnsureMove::Download(url, name) => {
                &&& events[i] matches EnsureEvent::Fetched(Ok(release))
                &&& exists|j: int|
                    0 <= j < release.assets@.len() && (#[trigger] release.assets@[j]).name@ == name
                        && release.assets@[j].browser_download_url@ == url
            },
            EnsureMove::Fetch(url) => url
                == "https://api.github.com/repos/mattuu0/ffmpeg-builder/releases/latest"@,
            _ => true,
        },
{
    lemma_action_at(config, events, i);
    reveal_strlit("https://api.github.com/repos/mattuu0/ffmpeg-builder/releases/latest");
    reveal_strlit("https://api.github.com/repos/");
    reveal_strlit("mattuu0/ffmpeg-builder");
    reveal_strlit("/releases/latest");
    assert("https://api.github.com/repos/"@ + "mattuu0/ffmpeg-builder"@ + "/releases/latest"@
        =~= "https://api.github.com/repos/mattuu0/ffmpeg-builder/releases/latest"@);
    if let EnsureEvent::Fetched(Ok(release)) = events[i] {
        files_are_found_by_their_name(
            release.assets@,
            build_name(platform_name(config.os@)->0, arch_name(config.arch@)->0),
        );
    }
}

/// What fails ends the run with a message that tells the reason, and so does an
/// archive that was extracted and holds no ffmpeg.
pub proof fn failures_are_told<Q>(state: EnsureView, config: EnsureConfig, path: String, e: String)
    ensures
        ({
            let (s, m) = state.at(EnsureStage::MakingDir).after(
                config,
                EnsureEvent::<Q>::MadeDir(Err(e)),
            );
            &&& s.stage == EnsureStage::Failed
            &&& m == EnsureMove::<Q>::Fail("failed to create "@ + config.dest_dir@ + ": "@ + e@)
        }),
        ({
            let (s, m) = state.at(EnsureStage::Fetching).after(
                config,
                EnsureEvent::<Q>::Fetched(Err(FetchFailure::Request(e))),
            );
            &&& s.stage == EnsureStage::Failed
            &&& m == EnsureMove::<Q>::Fail("GitHub API request failed: "@ + e@)
        }),
        ({
            let (s, m) = state.at(EnsureStage::Fetching).after(
                config,
                EnsureEvent::<Q>::Fetched(Err(FetchFailure::Parse(e))),
            );
            &&& s.stage == EnsureStage::Failed
            &&& m == EnsureMove::<Q>::Fail("failed to parse GitHub API response: "@ + e@)
        }),
        ({
            let (s, m) = state.at(EnsureStage::Downloading).after(
                config,
                EnsureEvent::<Q>::Downloaded(Err(DownloadFailure::Request(e))),
            );
            &&& s.stage == EnsureStage::Failed
            &&& m == EnsureMove::<Q>::Fail("download failed: "@ + e@)
        }),
        ({
            let (s, m) = state.at(EnsureStage::Downloading).after(
                config,
                EnsureEvent::<Q>::Downloaded(Err(DownloadFailure::Create(path, e))),
            );
            &&& s.stage == EnsureStage::Failed
            &&& m == EnsureMove::<Q>::Fail("failed to create "@ + path@ + ": "@ + e@)
        }),
        ({
            let (s, m) = state.at(EnsureStage::Downloading).after(
                config,
                EnsureEvent::<Q>::Downloaded(Err(DownloadFailure::Write(path, e))),
            );
            &&& s.stage == EnsureStage::Failed
            &&& m == EnsureMove::<Q>::Fail("failed to write "@ + path@ + ": "@ + e@)
        }),
        ({
            let (s, m) = state.at(EnsureStage::Extracting).after(
                config,
                EnsureEvent::<Q>::Extracted(Err(ExtractFailure::Open(path, e))),
            );
            &&& s.stage == EnsureStage::Failed
            &&& m == EnsureMove::<Q>::Fail("failed to open "@ + path@ + ": "@ + e@)
        }),
        ({
            let (s, m) = state.at(EnsureStage::Extracting).after(
                config,
                EnsureEvent::<Q>::Extracted(Err(ExtractFailure::Extract(Error { message: e }))),
            );
            &&& s.stage == EnsureStage::Failed
            &&& m == EnsureMove::<Q>::Fail(e@)
        }),
        ({
            let (s, m) = state.at(EnsureStage::LookingAgain).after(
                config,
                EnsureEvent::<Q>::Found(None),
            );
            &&& s.stage == EnsureStage::Failed
            &&& m is Fail
        }),
{
}

/// Once its directory is there ffmpeg is taken from the program itself where it
/// is bundled. Where it is not, a platform or an architecture without builds ends
/// the run before anything is fetched.
pub proof fn only_known_machines_fetch<Q>(state: EnsureView, config: EnsureConfig)
    ensures
        ({
            let (s, m) = state.at(EnsureStage::MakingDir).after(
                config,
                EnsureEvent::<Q>::MadeDir(Ok(())),
            );
            let known = config.os@ == "windows"@ || config.os@ == "macos"@ || config.os@
                == "linux"@;
            let fits = config.arch@ == "x86_64"@ || config.arch@ == "aarch64"@;
            &&& m is ExtractBundled <==> config.bundled
            &&& m is Fetch <==> !config.bundled && known && fits
            &&& !config.bundled && !known ==> m == EnsureMove::<Q>::Fail(
                "unsupported OS: "@ + config.os@,
            )
            &&& !config.bundled && known && !fits ==> m == EnsureMove::<Q>::Fail(
                "unsupported architecture: "@ + config.arch@,
            )
        }),
{
    builds_are_named_after_the_machine(
        config.os@,
        config.arch@,
        Seq::empty(),
        Seq::empty(),
    );
}

} // verus!
