//! Reading zip archives, and what extracting one comes to.
use std::io::Cursor;

use vstd::prelude::*;
use vstd::string::*;

use crate::error::Error;
use crate::text;

verus! {

// ---------------------------------------------------------------------------
// The zip crate
// ---------------------------------------------------------------------------

/// `zip::ZipArchive`: an archive that is being read.
#[verifier::external_type_specification]
#[verifier::external_body]
#[verifier::reject_recursive_types(R)]
pub struct ExZipArchive<R>(zip::ZipArchive<R>);

/// `std::io::Cursor`: bytes in memory with a reading position.
#[verifier::external_type_specification]
#[verifier::external_body]
#[verifier::reject_recursive_types(T)]
pub struct ExCursor<T>(std::io::Cursor<T>);

/// The bytes that an archive is read from.
pub uninterp spec fn held(archive: zip::ZipArchive<Cursor<&[u8]>>) -> Seq<u8>;

/// Why bytes are no zip archive; `None` where they are one.
pub uninterp spec fn zip_flaw(bytes: Seq<u8>) -> Option<Seq<char>>;

/// The number of entries that the directory of an archive lists.
pub uninterp spec fn zip_len(bytes: Seq<u8>) -> nat;

/// Whether an entry is refused to a reader with an empty password.
pub uninterp spec fn zip_refused(bytes: Seq<u8>, index: nat) -> bool;

/// An entry: its name, its Unix mode where it has one, and its content or why
/// that cannot be read. Or why there is no such entry.
pub uninterp spec fn zip_entry(bytes: Seq<u8>, index: nat) -> Result<
    (Seq<char>, Option<u32>, Result<Seq<u8>, Seq<char>>),
    Seq<char>,
>;

/// An entry of an archive.
#[derive(Debug)]
pub struct ZipEntry {
    pub name: String,
    /// Whether the name is a path that stays below the directory it is taken
    /// from.
    pub enclosed: bool,
    pub mode: Option<u32>,
    /// What could be read of the content.
    pub read: Vec<u8>,
    /// Why the rest could not, where there is more.
    pub failure: Option<String>,
}

/// An entry in the model.
#[verifier::ext_equal]
pub struct EntryView {
    pub name: Seq<char>,
    pub enclosed: bool,
    pub mode: Option<u32>,
    pub read: Seq<u8>,
    pub failure: Option<Seq<char>>,
}

impl View for ZipEntry {
    type V = EntryView;

    open spec fn view(&self) -> EntryView {
        EntryView {
            name: self.name@,
            enclosed: self.enclosed,
            mode: self.mode,
            read: self.read@,
            failure: reason_view(self.failure),
        }
    }
}

pub open spec fn reason_view(reason: Option<String>) -> Option<Seq<char>> {
    match reason {
        Some(e) => Some(e@),
        None => None,
    }
}

/// What came of reading an entry, in the model.
pub open spec fn entry_view(r: Result<ZipEntry, String>) -> Result<EntryView, Seq<char>> {
    match r {
        Ok(entry) => Ok(entry@),
        Err(e) => Err(e@),
    }
}

/// A name without a zero that does not begin with a slash.
pub open spec fn plain_name(name: Seq<char>) -> bool {
    !name.contains('\0') && !(name.len() > 0 && name[0] == '/')
}

/// From `depth` directories down, no part of the name leads above the directory
/// that the name is taken from. Parts stand between slashes: `..` leads up, an
/// empty part and `.` lead nowhere, all others lead down.
pub open spec fn stays_below(name: Seq<char>, depth: nat) -> bool
    decreases name.len(),
{
    let n = text::first_where(name, text::just('/'));
    let last = n < 0 || n >= name.len();
    let part = if last {
        name
    } else {
        name.take(n)
    };
    let up = part == seq!['.', '.'];
    let down = part.len() > 0 && part != seq!['.'] && !up;
    if up && depth == 0 {
        false
    } else if last {
        true
    } else {
        stays_below(
            name.skip(n + 1),
            if up {
                (depth - 1) as nat
            } else if down {
                depth + 1
            } else {
                depth
            },
        )
    }
}

/// What the name says of whether it is enclosed. Only names with a backslash or
/// a colon are read differently from platform to platform.
pub open spec fn name_decides(name: Seq<char>, enclosed: bool) -> bool {
    &&& enclosed ==> plain_name(name)
    &&& !name.contains('\\') && !name.contains(':') ==> enclosed == (plain_name(name)
        && stays_below(name, 0))
}

/// An entry, or why there is none, is what the archive holds. What was read of
/// a content that cannot be read to its end is left open.
pub open spec fn fits(
    named: Result<(Seq<char>, Option<u32>, Result<Seq<u8>, Seq<char>>), Seq<char>>,
    entry: Result<EntryView, Seq<char>>,
) -> bool {
    match (named, entry) {
        (Ok((name, mode, content)), Ok(entry)) => {
            &&& entry.name == name
            &&& entry.mode == mode
            &&& name_decides(name, entry.enclosed)
            &&& match content {
                Ok(bytes) => entry.failure is None && entry.read == bytes,
                Err(e) => entry.failure == Some(e),
            }
        },
        (Err(a), Err(b)) => a == b,
        _ => false,
    }
}

/// `zip::ZipArchive::new` reads the directory of an archive. It fails with an
/// error, taken here as its message, exactly on the bytes that are no archive.
#[verifier::external_body]
fn open_archive(bytes: &[u8]) -> (r: Result<zip::ZipArchive<Cursor<&[u8]>>, String>)
    ensures
        match r {
            Ok(archive) => held(archive) == bytes@ && zip_flaw(bytes@) is None,
            Err(e) => zip_flaw(bytes@) == Some(e@),
        },
{
    zip::ZipArchive::new(Cursor::new(bytes)).map_err(|e| e.to_string())
}

/// `zip::ZipArchive::len` is the number of entries in the directory.
#[verifier::external_body]
fn archive_len(archive: &zip::ZipArchive<Cursor<&[u8]>>) -> (r: usize)
    ensures
        r == zip_len(held(*archive)),
{
    archive.len()
}

/// `zip::ZipArchive::by_index_decrypt` with an empty password answers
/// `InvalidPassword` for some of the entries that are marked as encrypted or
/// described as such in their extra field. The bytes alone decide for which.
#[verifier::external_body]
fn is_refused(archive: &mut zip::ZipArchive<Cursor<&[u8]>>, index: usize) -> (r: bool)
    ensures
        held(*final(archive)) == held(*old(archive)),
        r == zip_refused(held(*old(archive)), index as nat),
{
    matches!(archive.by_index_decrypt(index, &[]), Ok(Err(_)))
}

/// `zip::ZipArchive::by_index` gives an entry, of which the name, the mode and
/// the content are taken, or an error, taken as its message. All of that depends
/// on the bytes alone, but for how much is read of a content that fails: that
/// rests on how many bytes `read_to_end` asks for at a time.
///
/// `enclosed_name` accepts no name that holds a zero, that begins at a root, or
/// whose parts lead above where they start. A name without a backslash and
/// without a colon has the same parts on every platform; how any other is read
/// is left open.
///
/// `by_index` itself panics on an entry that is described as encrypted but not
/// marked so; all such entries are refused to a reader with an empty password.
#[verifier::external_body]
fn read_entry(archive: &mut zip::ZipArchive<Cursor<&[u8]>>, index: usize) -> (r: Result<
    ZipEntry,
    String,
>)
    requires
        !zip_refused(held(*old(archive)), index as nat),
    ensures
        held(*final(archive)) == held(*old(archive)),
        fits(zip_entry(held(*old(archive)), index as nat), entry_view(r)),
{
    let mut file = archive.by_index(index).map_err(|e| e.to_string())?;
    let mut read: Vec<u8> = Vec::new();
    let outcome = std::io::Read::read_to_end(&mut file, &mut read);
    Ok(ZipEntry {
        name: file.name().to_string(),
        enclosed: file.enclosed_name().is_some(),
        mode: file.unix_mode(),
        read,
        failure: outcome.err().map(|e| e.to_string()),
    })
}

// ---------------------------------------------------------------------------
// Extracting
// ---------------------------------------------------------------------------

/// What one entry comes to in the directory that the archive is extracted to.
#[derive(Debug)]
pub enum ExtractStep {
    /// Make the directory of this name.
    MakeDir(String),
    /// Make the directory above this name, create the file and write to it what
    /// was read. Then fail, if there is a reason why the rest could not be read,
    /// or else set the file's mode where it has one.
    WriteFile(String, Vec<u8>, Option<String>, Option<u32>),
}

/// A step in the model.
#[verifier::ext_equal]
pub enum StepView {
    MakeDir(Seq<char>),
    WriteFile(Seq<char>, Seq<u8>, Option<Seq<char>>, Option<u32>),
}

impl View for ExtractStep {
    type V = StepView;

    open spec fn view(&self) -> StepView {
        match *self {
            ExtractStep::MakeDir(name) => StepView::MakeDir(name@),
            ExtractStep::WriteFile(name, read, failure, mode) => StepView::WriteFile(
                name@,
                read@,
                reason_view(failure),
                mode,
            ),
        }
    }
}

/// The step of a file whose content could not be read to its end.
pub open spec fn incomplete(step: StepView) -> bool {
    match step {
        StepView::WriteFile(_, _, failure, _) => failure is Some,
        StepView::MakeDir(_) => false,
    }
}

/// The step for an entry. One whose name is not enclosed is passed over; one
/// whose name ends with a slash is a directory.
pub open spec fn step_of(entry: Result<EntryView, Seq<char>>, index: nat) -> Result<
    Option<StepView>,
    Seq<char>,
> {
    match entry {
        Ok(entry) => if !entry.enclosed {
            Ok(None)
        } else if entry.name.len() > 0 && entry.name.last() == '/' {
            Ok(Some(StepView::MakeDir(entry.name)))
        } else {
            Ok(Some(StepView::WriteFile(entry.name, entry.read, entry.failure, entry.mode)))
        },
        Err(e) => Err("failed to read zip entry "@ + text::decimal(index) + ": "@ + e),
    }
}

/// The step for an entry that was read, or could not be.
pub fn entry_step(entry: Result<ZipEntry, String>, index: usize) -> (r: Result<
    Option<ExtractStep>,
    Error,
>)
    ensures
        ({
            let expected = step_of(entry_view(entry), index as nat);
            match r {
                Ok(Some(step)) => expected == Ok::<Option<StepView>, Seq<char>>(Some(step@)),
                Ok(None) => expected == Ok::<Option<StepView>, Seq<char>>(None),
                Err(e) => expected == Err::<Option<StepView>, Seq<char>>(e@),
            }
        }),
{
    match entry {
        Ok(entry) => {
            if !entry.enclosed {
                return Ok(None);
            }
            let chars = text::to_chars(entry.name.as_str());
            if chars.len() > 0 && chars[chars.len() - 1] == '/' {
                Ok(Some(ExtractStep::MakeDir(entry.name)))
            } else {
                Ok(
                    Some(
                        ExtractStep::WriteFile(
                            entry.name,
                            entry.read,
                            entry.failure,
                            entry.mode,
                        ),
                    ),
                )
            }
        },
        Err(e) => {
            let mut message = "failed to read zip entry ".to_owned();
            text::push_decimal(&mut message, index as u64);
            message.append(": ");
            message.append(e.as_str());
            Err(Error { message })
        },
    }
}

/// What an archive holds at an index. An encrypted entry is not read.
pub open spec fn entry_at(bytes: Seq<u8>, index: nat) -> Result<
    (Seq<char>, Option<u32>, Result<Seq<u8>, Seq<char>>),
    Seq<char>,
> {
    if zip_refused(bytes, index) {
        Err("unsupported Zip archive: Password required to decrypt file"@)
    } else {
        zip_entry(bytes, index)
    }
}

/// The step is that of an entry of the archive.
pub open spec fn is_step(bytes: Seq<u8>, step: StepView) -> bool {
    exists|index: nat, entry: Result<EntryView, Seq<char>>|
        index < zip_len(bytes) && fits(entry_at(bytes, index), entry) && #[trigger] step_of(
            entry,
            index,
        ) == Ok::<Option<StepView>, Seq<char>>(Some(step))
}

/// The entry was stored, by one call of `store` that led from one state to the
/// other, or there was nothing to store and the state stayed.
pub open spec fn entry_stored<T, F: Fn(T, ExtractStep) -> (T, Result<(), Error>)>(
    store: F,
    before: T,
    entry: Result<EntryView, Seq<char>>,
    index: nat,
    after: T,
) -> bool {
    match step_of(entry, index) {
        Ok(Some(s)) => exists|step: ExtractStep, out: (T, Result<(), Error>)|
            step@ == s && out.0 == after && out.1 is Ok && #[trigger] call_ensures(
                store,
                (before, step),
                out,
            ),
        Ok(None) => after == before,
        Err(_) => false,
    }
}

/// The entry could not be read, or the one call of `store` for it failed, for
/// this reason.
pub open spec fn entry_failed<T, F: Fn(T, ExtractStep) -> (T, Result<(), Error>)>(
    store: F,
    before: T,
    entry: Result<EntryView, Seq<char>>,
    index: nat,
    after: T,
    e: Error,
) -> bool {
    match step_of(entry, index) {
        Ok(Some(s)) => exists|step: ExtractStep|
            step@ == s && #[trigger] call_ensures(store, (before, step), (after, Err(e))),
        Ok(None) => false,
        Err(message) => after == before && e@ == message,
    }
}

/// These are the first entries of the archive, and each was stored once, in
/// order, from the first of the states to the last.
pub open spec fn stored<T, F: Fn(T, ExtractStep) -> (T, Result<(), Error>)>(
    bytes: Seq<u8>,
    entries: Seq<Result<EntryView, Seq<char>>>,
    states: Seq<T>,
    store: F,
) -> bool {
    &&& states.len() == entries.len() + 1
    &&& forall|i: int|
        0 <= i < entries.len() ==> fits(entry_at(bytes, i as nat), #[trigger] entries[i])
            && entry_stored(store, states[i], entries[i], i as nat, states[i + 1])
}

/// What is stored of these entries was read to its end.
pub open spec fn all_complete(entries: Seq<Result<EntryView, Seq<char>>>) -> bool {
    forall|i: int|
        0 <= i < entries.len() ==> match step_of(#[trigger] entries[i], i as nat) {
            Ok(Some(step)) => !incomplete(step),
            _ => true,
        }
}

/// These are the first entries of the archive. The last of them could not be
/// read or stored, and all before it were stored once, in order.
pub open spec fn stopped<T, F: Fn(T, ExtractStep) -> (T, Result<(), Error>)>(
    bytes: Seq<u8>,
    entries: Seq<Result<EntryView, Seq<char>>>,
    states: Seq<T>,
    store: F,
    after: T,
    e: Error,
) -> bool {
    &&& 0 < entries.len() <= zip_len(bytes)
    &&& stored(bytes, entries.drop_last(), states, store)
    &&& fits(entry_at(bytes, (entries.len() - 1) as nat), entries.last())
    &&& entry_failed(
        store,
        states.last(),
        entries.last(),
        (entries.len() - 1) as nat,
        after,
        e,
    )
}

/// Extracts a zip archive, entry by entry, with `store` to carry out the steps.
/// It ends at the first entry that cannot be read or stored. Each call of `store`
/// takes the state that the one before it left, so that no entry can be left out
/// or stored twice.
pub fn extract_zip_bytes<T, F: Fn(T, ExtractStep) -> (T, Result<(), Error>)>(
    zip_bytes: &[u8],
    state: T,
    store: F,
) -> (r: (T, Result<(), Error>))
    requires
        forall|t: T, step: ExtractStep|
            is_step(zip_bytes@, step@) ==> #[trigger] call_requires(store, (t, step)),
        forall|t: T, step: ExtractStep, out: (T, Result<(), Error>)| #[trigger]
            call_ensures(store, (t, step), out) && incomplete(step@) ==> out.1 is Err,
    ensures
        r.1 is Ok ==> zip_flaw(zip_bytes@) is None && exists|
            entries: Seq<Result<EntryView, Seq<char>>>,
            states: Seq<T>,
        |
            {
                &&& entries.len() == zip_len(zip_bytes@)
                &&& #[trigger] stored(zip_bytes@, entries, states, store)
                &&& all_complete(entries)
                &&& states[0] == state
                &&& states.last() == r.0
            },
        r.1 matches Err(e) ==> match zip_flaw(zip_bytes@) {
            Some(message) => r.0 == state && e@ == "failed to read zip: "@ + message,
            None => exists|entries: Seq<Result<EntryView, Seq<char>>>, states: Seq<T>| #[trigger]
                stopped(zip_bytes@, entries, states, store, r.0, e) && states[0] == state,
        },
{
    let mut archive = match open_archive(zip_bytes) {
        Ok(archive) => archive,
        Err(e) => return (state, Err(Error::about("failed to read zip: ", e.as_str()))),
    };
    let count: usize = archive_len(&archive);
    let mut current = state;
    let ghost mut entries: Seq<Result<EntryView, Seq<char>>> = Seq::empty();
    let ghost mut states: Seq<T> = seq![current];
    let mut i: usize = 0;
    while i < count
        invariant
            0 <= i <= count,
            count == zip_len(zip_bytes@),
            zip_flaw(zip_bytes@) is None,
            held(archive) == zip_bytes@,
            entries.len() == i,
            stored(zip_bytes@, entries, states, store),
            all_complete(entries),
            states[0] == state,
            states.last() == current,
            forall|t: T, step: ExtractStep|
                is_step(zip_bytes@, step@) ==> #[trigger] call_requires(store, (t, step)),
            forall|t: T, step: ExtractStep, out: (T, Result<(), Error>)| #[trigger]
                call_ensures(store, (t, step), out) && incomplete(step@) ==> out.1 is Err,
        decreases count - i,
    {
        let entry: Result<ZipEntry, String> = if is_refused(&mut archive, i) {
            Err("unsupported Zip archive: Password required to decrypt file".to_owned())
        } else {
            read_entry(&mut archive, i)
        };
        let ghost seen = entry_view(entry);
        assert(fits(entry_at(zip_bytes@, i as nat), seen));
        let ghost before = current;
        let outcome = match entry_step(entry, i) {
            Ok(Some(step)) => {
                assert(step_of(seen, i as nat) == Ok::<Option<StepView>, Seq<char>>(Some(step@)));
                assert(is_step(zip_bytes@, step@));
                let (next, outcome) = store(current, step);
                current = next;
                outcome
            },
            Ok(None) => Ok(()),
            Err(e) => Err(e),
        };
        let ghost more = entries.push(seen);
        assert(more.drop_last() =~= entries);
        if let Err(e) = outcome {
            assert(entry_failed(store, before, seen, i as nat, current, e));
            let failed: (T, Result<(), Error>) = (current, Err(e));
            assert(stopped(zip_bytes@, more, states, store, failed.0, failed.1->Err_0));
            return failed;
        }
        proof {
            let grown = states.push(current);
            assert(entry_stored(store, before, seen, i as nat, current));
            assert forall|k: int| 0 <= k < more.len() implies fits(
                entry_at(zip_bytes@, k as nat),
                #[trigger] more[k],
            ) && entry_stored(store, grown[k], more[k], k as nat, grown[k + 1]) by {
                if k < i {
                    assert(more[k] == entries[k]);
                    assert(grown[k] == states[k] && grown[k + 1] == states[k + 1]);
                }
            }
            assert forall|k: int| 0 <= k < more.len() implies match step_of(
                #[trigger] more[k],
                k as nat,
            ) {
                Ok(Some(step)) => !incomplete(step),
                _ => true,
            } by {
                if k < i {
                    assert(more[k] == entries[k]);
                }
            }
            entries = more;
            states = grown;
        }
        i += 1;
    }
    (current, Ok(()))
}

// ---------------------------------------------------------------------------
// Laws
// ---------------------------------------------------------------------------

/// Nothing is made or written for an entry that is not enclosed, and what is
/// made or written has the entry's own name, content and mode.
pub proof fn only_enclosed_entries_are_stored(entry: Result<EntryView, Seq<char>>, index: nat)
    ensures
        match step_of(entry, index) {
            Ok(Some(StepView::MakeDir(name))) => entry is Ok && entry->Ok_0.enclosed && name
                == entry->Ok_0.name,
            Ok(Some(StepView::WriteFile(name, read, failure, mode))) => entry == Ok::<
                EntryView,
                Seq<char>,
            >(EntryView { name, enclosed: true, mode, read, failure }),
            _ => true,
        },
{
}

/// Whatever the platform, an entry of an archive is stored if its name stays
/// below the directory, and passed over if it does not: it then holds a zero,
/// begins with a slash, or leads up too far. Left out are the names with a
/// backslash or a colon.
pub proof fn names_decide_what_is_stored(
    bytes: Seq<u8>,
    index: nat,
    entry: Result<EntryView, Seq<char>>,
)
    requires
        fits(entry_at(bytes, index), entry),
        entry is Ok,
        !entry->Ok_0.name.contains('\\'),
        !entry->Ok_0.name.contains(':'),
    ensures
        step_of(entry, index) is Ok,
        step_of(entry, index)->Ok_0 is Some <==> plain_name(entry->Ok_0.name) && stays_below(
            entry->Ok_0.name,
            0,
        ),
{
}

/// A complete file is stored with just the content that the archive holds.
pub proof fn complete_files_hold_the_content(
    bytes: Seq<u8>,
    index: nat,
    entry: Result<EntryView, Seq<char>>,
)
    requires
        fits(entry_at(bytes, index), entry),
    ensures
        match step_of(entry, index) {
            Ok(Some(StepView::WriteFile(name, read, None, mode))) => entry_at(bytes, index)
                == Ok::<(Seq<char>, Option<u32>, Result<Seq<u8>, Seq<char>>), Seq<char>>(
                (name, mode, Ok(read)),
            ),
            _ => true,
        },
{
}

/// An enclosed entry is a directory exactly if its name ends with a slash. Any
/// other is a file, which gets what was read, the mode, and the reason why no
/// more could be read, if there is one.
pub proof fn a_slash_at_the_end_makes_a_directory(entry: EntryView, index: nat)
    requires
        entry.enclosed,
    ensures
        ({
            let step = step_of(Ok(entry), index);
            &&& step is Ok && step->Ok_0 is Some
            &&& step->Ok_0->0 == StepView::MakeDir(entry.name) <==> entry.name.len() > 0
                && entry.name[entry.name.len() - 1] == '/'
            &&& step->Ok_0->0 == StepView::WriteFile(
                entry.name,
                entry.read,
                entry.failure,
                entry.mode,
            ) <==> entry.name.len() == 0 || entry.name[entry.name.len() - 1] != '/'
            &&& step->Ok_0->0 is WriteFile ==> (incomplete(step->Ok_0->0) <==> entry.failure
                is Some)
        }),
{
}

/// An entry that cannot be read ends the extraction, with its number and the
/// reason. So does every encrypted entry.
pub proof fn unreadable_entries_are_told(bytes: Seq<u8>, index: nat, reason: Seq<char>)
    ensures
        step_of(Err(reason), index) == Err::<Option<StepView>, Seq<char>>(
            "failed to read zip entry "@ + text::decimal(index) + ": "@ + reason,
        ),
        zip_refused(bytes, index) ==> entry_at(bytes, index) is Err,
        !zip_refused(bytes, index) ==> entry_at(bytes, index) == zip_entry(bytes, index),
{
}

/// Names that lead up: `..` alone and in front of anything does, and a name that
/// stays below still does behind a directory, or behind one and back.
pub proof fn names_lead_down_and_up(name: Seq<char>, dir: Seq<char>, depth: nat)
    requires
        dir.len() > 0,
        !dir.contains('/'),
        dir != seq!['.'],
        dir != seq!['.', '.'],
    ensures
        !stays_below(seq!['.', '.'], 0),
        !stays_below(seq!['.', '.', '/'] + name, 0),
        stays_below(dir, depth),
        stays_below(dir + seq!['/'] + name, depth) == stays_below(name, depth + 1),
        stays_below(seq!['.', '.', '/'] + name, depth + 1) == stays_below(name, depth),
        stays_below(seq!['.', '/'] + name, depth) == stays_below(name, depth),
        stays_below(seq!['/'] + name, depth) == stays_below(name, depth),
{
    let up = seq!['.', '.'];
    let here = seq!['.'];
    let slash = text::just('/');
    assert forall|j: int| 0 <= j < dir.len() implies !slash(#[trigger] dir[j]) by {
        assert(dir.contains(dir[j]));
    }
    text::lemma_first_where_is(up, slash, 2);
    text::lemma_first_where_is(dir, slash, dir.len() as int);
    let a = up + seq!['/'] + name;
    assert(seq!['.', '.', '/'] + name =~= a);
    text::lemma_first_where_is(a, slash, 2);
    assert(a.take(2) =~= up);
    assert(a.skip(3) =~= name);
    let b = dir + seq!['/'] + name;
    let n = dir.len() as int;
    assert forall|j: int| 0 <= j < n implies !slash(#[trigger] b[j]) by {
        assert(b[j] == dir[j]);
    }
    text::lemma_first_where_is(b, slash, n);
    assert(b.take(n) =~= dir);
    assert(b.skip(n + 1) =~= name);
    let c = here + seq!['/'] + name;
    assert(seq!['.', '/'] + name =~= c);
    text::lemma_first_where_is(c, slash, 1);
    assert(c.take(1) =~= here);
    assert(c.skip(2) =~= name);
    assert(here.len() != up.len());
    let d = seq!['/'] + name;
    text::lemma_first_where_is(d, slash, 0);
    assert(d.take(0) =~= Seq::empty());
    assert(d.skip(1) =~= name);
}

} // verus!
