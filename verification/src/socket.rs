//! Where sessions live in the file system: names, directories, sockets and locks.

use crate::text::{push_decimal, together};
use vstd::prelude::*;

verus! {

// ---------------------------------------------------------------------------
// Session names
// ---------------------------------------------------------------------------

/// Why a string is no session name.
#[derive(Debug, Clone, Copy, PartialEq, Eq, Structural)]
pub enum NameError {
    Empty,
    TooLong,
    BadCharacter,
    BadStart,
}

impl NameError {
    /// The error's text.
    pub open spec fn text(self) -> Seq<char> {
        match self {
            NameError::Empty => "session name cannot be empty"@,
            NameError::TooLong => "session name too long (max 64 characters)"@,
            NameError::BadCharacter => "session name must contain only alphanumeric characters, dots, underscores, or hyphens"@,
            NameError::BadStart => "session name must not start with '.' or '-'"@,
        }
    }

    /// The error's text.
    pub fn message(self) -> (s: &'static str)
        ensures
            s@ == self.text(),
    {
        match self {
            NameError::Empty => "session name cannot be empty",
            NameError::TooLong => "session name too long (max 64 characters)",
            NameError::BadCharacter => "session name must contain only alphanumeric characters, dots, underscores, or hyphens",
            NameError::BadStart => "session name must not start with '.' or '-'",
        }
    }
}

/// Whether a session name may hold this character: ASCII letters and digits, `.`, `_` and `-`.
pub open spec fn name_char(c: char) -> bool {
    ||| 'a' <= c <= 'z'
    ||| 'A' <= c <= 'Z'
    ||| '0' <= c <= '9'
    ||| c == '.'
    ||| c == '_'
    ||| c == '-'
}

/// What is wrong with a session name, if anything. Its length is counted in bytes.
pub open spec fn name_problem(name: Seq<char>) -> Option<NameError> {
    if name.len() == 0 {
        Some(NameError::Empty)
    } else if vstd::utf8::encode_utf8(name).len() > 64 {
        Some(NameError::TooLong)
    } else if exists|i: int| 0 <= i < name.len() && !name_char(#[trigger] name[i]) {
        Some(NameError::BadCharacter)
    } else if name[0] == '.' || name[0] == '-' {
        Some(NameError::BadStart)
    } else {
        None
    }
}

/// Check a session name.
pub fn validate_session_name(name: &str) -> (r: Result<(), NameError>)
    ensures
        r == (match name_problem(name@) {
            Some(e) => Err::<(), NameError>(e),
            None => Ok::<(), NameError>(()),
        }),
{
    let n: usize = name.unicode_len();
    if n == 0 {
        return Err(NameError::Empty);
    }
    if name.as_bytes().len() > 64 {
        return Err(NameError::TooLong);
    }
    let mut i: usize = 0;
    while i < n
        invariant
            i <= n,
            n == name@.len(),
            n > 0,
            vstd::utf8::encode_utf8(name@).len() <= 64,
            forall|j: int| 0 <= j < i ==> name_char(#[trigger] name@[j]),
        decreases n - i,
    {
        let c: char = name.get_char(i);
        if !(('a' <= c && c <= 'z') || ('A' <= c && c <= 'Z') || ('0' <= c && c <= '9') || c == '.'
            || c == '_' || c == '-') {
            assert(!name_char(name@[i as int]));
            return Err(NameError::BadCharacter);
        }
        i = i + 1;
    }
    let first: char = name.get_char(0);
    if first == '.' || first == '-' {
        return Err(NameError::BadStart);
    }
    Ok(())
}

/// A session name is one component of a path, and a tame one: it is not empty, has at most 64
/// characters, holds no separator, no zero and no other control character, and is neither `.`
/// nor `..` nor hidden nor an option.
pub proof fn law_session_name_is_tame(name: Seq<char>)
    requires
        name_problem(name) is None,
    ensures
        1 <= name.len() <= 64,
        forall|i: int|
            0 <= i < name.len() ==> #[trigger] name[i] != '/' && name[i] > ' ' && name[i]
                < '\u{7f}',
        name[0] != '.',
        name[0] != '-',
{
    assert forall|i: int| 0 <= i < name.len() implies #[trigger] name[i] != '/' && name[i] > ' '
        && name[i] < '\u{7f}' by {
        assert(name_char(name[i]));
    }
    assert(vstd::utf8::is_ascii_chars(name));
    vstd::utf8::is_ascii_chars_encode_utf8(name);
}

// ---------------------------------------------------------------------------
// Paths
// ---------------------------------------------------------------------------

/// A path put behind a directory: an absolute one stands for itself; otherwise there is one
/// separator between them, none where the directory is empty or ends in one.
pub open spec fn joined(dir: Seq<char>, path: Seq<char>) -> Seq<char> {
    if path.len() > 0 && path[0] == '/' {
        path
    } else if dir.len() == 0 || dir.last() == '/' {
        dir + path
    } else {
        dir.push('/') + path
    }
}

/// Put a path behind a directory.
pub fn join(dir: &str, path: &str) -> (s: String)
    ensures
        s@ == joined(dir@, path@),
{
    if path.unicode_len() > 0 && path.get_char(0) == '/' {
        return path.to_owned();
    }
    let n: usize = dir.unicode_len();
    let mut s: String = dir.to_owned();
    if n > 0 && dir.get_char(n - 1) != '/' {
        s.push('/');
    }
    s.append(path);
    s
}

/// The name of the lock file beside the socket `name`.
pub fn lock_file_name(name: &str) -> (s: String)
    ensures
        s@ == name@ + ".lock"@,
{
    together(name, ".lock")
}

/// The path of a session's socket in the socket directory.
pub fn socket_path(dir: &str, name: &str) -> (s: String)
    ensures
        s@ == joined(dir@, name@),
{
    join(dir, name)
}

/// The path of a session's lock file in the socket directory. The server holds the lock for as
/// long as it lives; a session is stale exactly when nobody holds it.
pub fn lock_path(dir: &str, name: &str) -> (s: String)
    ensures
        s@ == joined(dir@, name@ + ".lock"@),
{
    join(dir, lock_file_name(name).as_str())
}

/// The lock file stands beside the socket: its path is that of the socket with `.lock` behind.
pub proof fn law_lock_stands_beside_socket(dir: Seq<char>, name: Seq<char>)
    requires
        name_problem(name) is None,
    ensures
        joined(dir, name + ".lock"@) == joined(dir, name) + ".lock"@,
{
    law_session_name_is_tame(name);
    assert((name + ".lock"@)[0] == name[0]);
    assert(joined(dir, name + ".lock"@) =~= joined(dir, name) + ".lock"@);
}

/// Sessions of different names have different sockets.
pub proof fn law_sockets_differ(dir: Seq<char>, a: Seq<char>, b: Seq<char>)
    requires
        name_problem(a) is None,
        name_problem(b) is None,
        joined(dir, a) == joined(dir, b),
    ensures
        a == b,
{
    law_session_name_is_tame(a);
    law_session_name_is_tame(b);
    let prefix = if dir.len() == 0 || dir.last() == '/' {
        dir
    } else {
        dir.push('/')
    };
    assert(a =~= (prefix + a).skip(prefix.len() as int));
    assert(b =~= (prefix + b).skip(prefix.len() as int));
}

// ---------------------------------------------------------------------------
// The socket directory
// ---------------------------------------------------------------------------

/// What is asked of a candidate for the socket directory.
#[derive(Debug, Clone, Copy, PartialEq, Eq, Structural)]
pub enum DirKind {
    /// Named by the user: it only has to be a directory.
    Explicit,
    /// The user's own: it must be a directory of the user that nobody else can enter.
    Personal,
    /// A directory of the user's own inside a base that everybody shares.
    Shared,
}

/// A place where sockets may be kept.
#[derive(Debug)]
pub struct DirCandidate {
    pub kind: DirKind,
    /// The shared directory around `dir`; empty where there is none.
    pub base: String,
    /// The directory for the sockets.
    pub dir: String,
}

/// What a [`DirCandidate`] is.
pub struct DirCandidateView {
    pub kind: DirKind,
    pub base: Seq<char>,
    pub dir: Seq<char>,
}

impl View for DirCandidate {
    type V = DirCandidateView;

    open spec fn view(&self) -> DirCandidateView {
        DirCandidateView { kind: self.kind, base: self.base@, dir: self.dir@ }
    }
}

/// What several candidates are.
pub open spec fn candidate_views(cs: Seq<DirCandidate>) -> Seq<DirCandidateView> {
    cs.map_values(|c: DirCandidate| c@)
}

/// The environment that the search for a socket directory looks at.
#[derive(Debug)]
pub struct DirEnv {
    /// `MNEME_SOCKET_DIR`
    pub socket_dir: Option<String>,
    /// `XDG_RUNTIME_DIR`
    pub runtime_dir: Option<String>,
    /// `HOME`
    pub home: Option<String>,
    /// `TMPDIR`
    pub tmp_dir: Option<String>,
    /// The user's id.
    pub uid: u32,
}

/// Whether a variable is set and not empty.
pub open spec fn is_set(var: Option<String>) -> bool {
    var matches Some(s) && s@.len() > 0
}

/// A candidate of the user's own.
pub open spec fn personal(dir: Seq<char>) -> DirCandidateView {
    DirCandidateView { kind: DirKind::Personal, base: Seq::empty(), dir }
}

/// A candidate inside a shared base, named after the user's id.
pub open spec fn shared(base: Seq<char>, uid: u32) -> DirCandidateView {
    DirCandidateView {
        kind: DirKind::Shared,
        base,
        dir: joined(base, crate::text::decimal(uid as nat)),
    }
}

/// A list of one candidate where the condition holds, else none.
pub open spec fn only_if(cond: bool, c: DirCandidateView) -> Seq<DirCandidateView> {
    if cond {
        seq![c]
    } else {
        Seq::empty()
    }
}

/// The candidates for the socket directory, in order. Variables that are unset or empty give
/// none; the last candidate is always there.
pub open spec fn candidates_of(env: DirEnv) -> Seq<DirCandidateView> {
    only_if(
        is_set(env.socket_dir),
        DirCandidateView {
            kind: DirKind::Explicit,
            base: Seq::empty(),
            dir: env.socket_dir->0@,
        },
    ) + only_if(is_set(env.runtime_dir), personal(joined(env.runtime_dir->0@, "mneme"@)))
        + only_if(is_set(env.home), personal(joined(env.home->0@, ".mneme"@))) + only_if(
        is_set(env.tmp_dir),
        shared(joined(env.tmp_dir->0@, "mneme"@), env.uid),
    ) + seq![shared("/tmp/mneme"@, env.uid)]
}

/// The value of a variable that is set and not empty.
fn set_value(var: &Option<String>) -> (r: Option<&str>)
    ensures
        is_set(*var) <==> r is Some,
        r matches Some(s) ==> s@ == var->0@,
{
    match var {
        Some(s) => if s.as_str().unicode_len() > 0 {
            Some(s.as_str())
        } else {
            None
        },
        None => None,
    }
}

fn push_candidate(cs: &mut Vec<DirCandidate>, c: DirCandidate)
    ensures
        candidate_views(final(cs)@) == candidate_views(old(cs)@) + seq![c@],
{
    let ghost before = cs@;
    cs.push(c);
    assert(candidate_views(cs@) =~= candidate_views(before) + seq![c@]);
}

fn shared_candidate(base: String, uid: u32) -> (c: DirCandidate)
    ensures
        c@ == shared(base@, uid),
{
    let mut id: String = String::new();
    push_decimal(&mut id, uid as u64);
    assert(id@ =~= crate::text::decimal(uid as nat));
    let dir = join(base.as_str(), id.as_str());
    DirCandidate { kind: DirKind::Shared, base, dir }
}

/// The candidates for the socket directory, in order.
pub fn dir_candidates(env: &DirEnv) -> (cs: Vec<DirCandidate>)
    ensures
        candidate_views(cs@) == candidates_of(*env),
{
    let mut cs: Vec<DirCandidate> = Vec::new();
    assert(candidate_views(cs@) =~= Seq::<DirCandidateView>::empty());
    if let Some(dir) = set_value(&env.socket_dir) {
        push_candidate(
            &mut cs,
            DirCandidate { kind: DirKind::Explicit, base: String::new(), dir: dir.to_owned() },
        );
    }
    if let Some(dir) = set_value(&env.runtime_dir) {
        push_candidate(
            &mut cs,
            DirCandidate {
                kind: DirKind::Personal,
                base: String::new(),
                dir: join(dir, "mneme"),
            },
        );
    }
    if let Some(dir) = set_value(&env.home) {
        push_candidate(
            &mut cs,
            DirCandidate {
                kind: DirKind::Personal,
                base: String::new(),
                dir: join(dir, ".mneme"),
            },
        );
    }
    if let Some(dir) = set_value(&env.tmp_dir) {
        push_candidate(&mut cs, shared_candidate(join(dir, "mneme"), env.uid));
    }
    push_candidate(&mut cs, shared_candidate("/tmp/mneme".to_owned(), env.uid));
    assert(candidate_views(cs@) =~= candidates_of(*env));
    cs
}

/// What to do next in the search for a socket directory.
#[derive(Debug, Clone, Copy, PartialEq, Eq, Structural)]
pub enum DirStep {
    /// Try to make the candidate at this index usable.
    Try(usize),
    /// The candidate at this index is the socket directory.
    Found(usize),
    /// There is no socket directory.
    NotFound,
}

/// The search goes through `n` candidates in order. Of those before `tried` all failed, but for
/// the last one where `usable` says so.
pub open spec fn dir_step_of(n: nat, tried: nat, usable: bool) -> DirStep {
    if usable {
        DirStep::Found((tried - 1) as usize)
    } else if tried < n {
        DirStep::Try(tried as usize)
    } else {
        DirStep::NotFound
    }
}

/// The next step of the search, after `tried` candidates of which the last was `usable` or not.
pub fn dir_step(candidates: &Vec<DirCandidate>, tried: usize, usable: bool) -> (step: DirStep)
    requires
        tried <= candidates@.len(),
        usable ==> tried > 0,
    ensures
        step == dir_step_of(candidates@.len(), tried as nat, usable),
{
    if usable {
        DirStep::Found(tried - 1)
    } else if tried < candidates.len() {
        DirStep::Try(tried)
    } else {
        DirStep::NotFound
    }
}

/// The error where no candidate can be used.
pub fn no_socket_dir() -> (s: &'static str)
    ensures
        s@ == "could not find or create socket directory"@,
{
    "could not find or create socket directory"
}

/// Where the search ends when trying the candidate at index `i` succeeds exactly where
/// `outcomes[i]` holds.
pub open spec fn search_end(outcomes: Seq<bool>, tried: nat, usable: bool) -> DirStep
    decreases outcomes.len() - tried,
{
    match dir_step_of(outcomes.len(), tried, usable) {
        DirStep::Try(i) => if tried < outcomes.len() {
            search_end(outcomes, tried + 1, outcomes[i as int])
        } else {
            DirStep::NotFound
        },
        end => end,
    }
}

/// The first candidate that can be used is the one that is used; without one there is none.
pub proof fn law_first_usable_directory_wins(outcomes: Seq<bool>, tried: nat)
    requires
        tried <= outcomes.len() <= usize::MAX,
    ensures
        match search_end(outcomes, tried, false) {
            DirStep::Found(i) => tried <= i < outcomes.len() && outcomes[i as int] && forall|j: int|
                tried <= j < i ==> !#[trigger] outcomes[j],
            DirStep::NotFound => forall|j: int|
                tried <= j < outcomes.len() ==> !#[trigger] outcomes[j],
            DirStep::Try(_) => false,
        },
    decreases outcomes.len() - tried,
{
    reveal_with_fuel(search_end, 2);
    if tried < outcomes.len() && !outcomes[tried as int] {
        law_first_usable_directory_wins(outcomes, tried + 1);
    }
}

// ---------------------------------------------------------------------------
// What a path is
// ---------------------------------------------------------------------------

/// What kind of thing a path names.
#[derive(Debug, Clone, Copy, PartialEq, Eq, Structural)]
pub enum FileKind {
    RegularFile,
    Directory,
    Symlink,
    Fifo,
    Socket,
    CharacterDevice,
    BlockDevice,
    Unknown,
}

/// The kind that the type bits of a mode word stand for.
pub open spec fn kind_of_mode(mode: u32) -> FileKind {
    let bits = mode & 0o170000;
    if bits == 0o100000 {
        FileKind::RegularFile
    } else if bits == 0o040000 {
        FileKind::Directory
    } else if bits == 0o120000 {
        FileKind::Symlink
    } else if bits == 0o010000 {
        FileKind::Fifo
    } else if bits == 0o140000 {
        FileKind::Socket
    } else if bits == 0o020000 {
        FileKind::CharacterDevice
    } else if bits == 0o060000 {
        FileKind::BlockDevice
    } else {
        FileKind::Unknown
    }
}

/// `rustix::fs::FileType::from_raw_mode`: the kind of file whose type bits, `S_IFMT`, stand in
/// the mode word; the `S_IF` constants have the values that they have on Linux and macOS. The mode
/// word is as wide as the system's, which always holds the type bits.
#[verifier::external_body]
fn file_kind(mode: u32) -> (kind: FileKind)
    ensures
        kind == kind_of_mode(mode),
{
    match rustix::fs::FileType::from_raw_mode(mode as rustix::fs::RawMode) {
        rustix::fs::FileType::RegularFile => FileKind::RegularFile,
        rustix::fs::FileType::Directory => FileKind::Directory,
        rustix::fs::FileType::Symlink => FileKind::Symlink,
        rustix::fs::FileType::Fifo => FileKind::Fifo,
        rustix::fs::FileType::Socket => FileKind::Socket,
        rustix::fs::FileType::CharacterDevice => FileKind::CharacterDevice,
        rustix::fs::FileType::BlockDevice => FileKind::BlockDevice,
        rustix::fs::FileType::Unknown => FileKind::Unknown,
    }
}

/// Why a path cannot serve as a directory for sockets.
#[derive(Debug, Clone, Copy, PartialEq, Eq, Structural)]
pub enum DirError {
    NotADirectory,
    NotOwned,
    Insecure,
}

impl DirError {
    /// The error's text.
    pub open spec fn text(self) -> Seq<char> {
        match self {
            DirError::NotADirectory => "not a directory"@,
            DirError::NotOwned => "directory not owned by current user"@,
            DirError::Insecure => "directory has insecure permissions"@,
        }
    }

    /// The error's text.
    pub fn message(self) -> (s: &'static str)
        ensures
            s@ == self.text(),
    {
        match self {
            DirError::NotADirectory => "not a directory",
            DirError::NotOwned => "directory not owned by current user",
            DirError::Insecure => "directory has insecure permissions",
        }
    }
}

/// What is wrong with a directory of the user's own, if anything: it must be a directory, belong
/// to the user, and be closed to group and others.
pub open spec fn dir_problem(mode: u32, owner: u32, user: u32) -> Option<DirError> {
    if kind_of_mode(mode) != FileKind::Directory {
        Some(DirError::NotADirectory)
    } else if owner != user {
        Some(DirError::NotOwned)
    } else if mode & 0o077 != 0 {
        Some(DirError::Insecure)
    } else {
        None
    }
}

/// Check a directory of the user's own by its mode word and owner.
pub fn verify_dir(mode: u32, owner: u32, user: u32) -> (r: Result<(), DirError>)
    ensures
        r == (match dir_problem(mode, owner, user) {
            Some(e) => Err::<(), DirError>(e),
            None => Ok::<(), DirError>(()),
        }),
{
    if file_kind(mode) != FileKind::Directory {
        return Err(DirError::NotADirectory);
    }
    if owner != user {
        return Err(DirError::NotOwned);
    }
    if mode & 0o077 != 0 {
        return Err(DirError::Insecure);
    }
    Ok(())
}

/// Check the base that a shared candidate lies in: it must be a directory itself, not a link to
/// one.
pub fn verify_shared_base(mode: u32) -> (r: Result<(), DirError>)
    ensures
        r == (if kind_of_mode(mode) == FileKind::Directory {
            Ok::<(), DirError>(())
        } else {
            Err::<(), DirError>(DirError::NotADirectory)
        }),
{
    if file_kind(mode) != FileKind::Directory {
        return Err(DirError::NotADirectory);
    }
    Ok(())
}

/// What an attempt to make a directory did that did not fail.
#[derive(Debug, Clone, Copy, PartialEq, Eq, Structural)]
pub enum MkdirOutcome {
    Created,
    /// Something of that name was there.
    Exists,
}

/// Whether a directory that the user named can be used: it was made, or it was there and is one.
pub fn explicit_dir(outcome: MkdirOutcome, is_dir: bool) -> (r: Result<(), DirError>)
    ensures
        r == (match outcome {
            MkdirOutcome::Created => Ok::<(), DirError>(()),
            MkdirOutcome::Exists => if is_dir {
                Ok::<(), DirError>(())
            } else {
                Err::<(), DirError>(DirError::NotADirectory)
            },
        }),
{
    match outcome {
        MkdirOutcome::Created => Ok(()),
        MkdirOutcome::Exists => if is_dir {
            Ok(())
        } else {
            Err(DirError::NotADirectory)
        },
    }
}

/// Whether a path in the socket directory can be a session's socket.
pub fn is_socket(mode: u32) -> (b: bool)
    ensures
        b == (kind_of_mode(mode) == FileKind::Socket),
{
    file_kind(mode) == FileKind::Socket
}

/// Whether a socket that nobody answers at may be removed: only a socket, and only the user's
/// own.
pub fn may_unlink(mode: u32, owner: u32, user: u32) -> (b: bool)
    ensures
        b == (kind_of_mode(mode) == FileKind::Socket && owner == user),
{
    file_kind(mode) == FileKind::Socket && owner == user
}

// ---------------------------------------------------------------------------
// Locks
// ---------------------------------------------------------------------------

/// What an attempt to take a session's lock shows.
#[derive(Debug, Clone, Copy, PartialEq, Eq, Structural)]
pub enum LockState {
    /// There is no lock file.
    Missing,
    /// The lock could be taken: nobody held it.
    Free,
    /// Somebody holds the lock.
    Held,
    /// The attempt failed for another reason.
    Unknown,
}

/// What an attempt to lock an open file without waiting shows: it worked, or it failed and
/// `would_block` says whether because somebody else has the lock.
pub fn lock_attempt(locked: bool, would_block: bool) -> (s: LockState)
    ensures
        s == (if locked {
            LockState::Free
        } else if would_block {
            LockState::Held
        } else {
            LockState::Unknown
        }),
{
    if locked {
        LockState::Free
    } else if would_block {
        LockState::Held
    } else {
        LockState::Unknown
    }
}

/// Whether a session is stale: nobody holds its lock. In doubt it counts as alive.
pub fn is_session_stale(lock: LockState) -> (b: bool)
    ensures
        b == (lock == LockState::Missing || lock == LockState::Free),
{
    match lock {
        LockState::Missing => true,
        LockState::Free => true,
        LockState::Held => false,
        LockState::Unknown => false,
    }
}

/// Every name within the rules is a session name: 1 to 64 letters, digits, dots, underscores and
/// hyphens of ASCII, the first of them no dot and no hyphen.
pub proof fn law_names_within_the_rules(name: Seq<char>)
    requires
        1 <= name.len() <= 64,
        forall|i: int|
            0 <= i < name.len() ==> ('a' <= #[trigger] name[i] <= 'z' || 'A' <= name[i] <= 'Z' || '0'
                <= name[i] <= '9' || name[i] == '.' || name[i] == '_' || name[i] == '-'),
        name[0] != '.',
        name[0] != '-',
    ensures
        name_problem(name) is None,
{
    assert(vstd::utf8::is_ascii_chars(name));
    vstd::utf8::is_ascii_chars_encode_utf8(name);
}

/// What is wrong with a name is said in this order: that it is empty; that it takes more than 64
/// bytes; that it holds a character that no name may hold; that it begins with a dot or a hyphen.
pub proof fn law_name_problems_in_order(name: Seq<char>)
    ensures
        name.len() == 0 <==> name_problem(name) == Some(NameError::Empty),
        name.len() > 0 && vstd::utf8::encode_utf8(name).len() > 64 <==> name_problem(name) == Some(
            NameError::TooLong,
        ),
        name_problem(name) == Some(NameError::BadCharacter) ==> exists|i: int|
            0 <= i < name.len() && !('a' <= #[trigger] name[i] <= 'z' || 'A' <= name[i] <= 'Z' || '0'
                <= name[i] <= '9' || name[i] == '.' || name[i] == '_' || name[i] == '-'),
        name_problem(name) == Some(NameError::BadStart) ==> name[0] == '.' || name[0] == '-',
        name_problem(name) is None ==> forall|i: int|
            0 <= i < name.len() ==> ('a' <= #[trigger] name[i] <= 'z' || 'A' <= name[i] <= 'Z' || '0'
                <= name[i] <= '9' || name[i] == '.' || name[i] == '_' || name[i] == '-'),
{
    if name_problem(name) == Some(NameError::BadCharacter) {
        let i = choose|i: int| 0 <= i < name.len() && !name_char(#[trigger] name[i]);
        assert(!name_char(name[i]));
    }
    if name_problem(name) is None {
        assert forall|i: int| 0 <= i < name.len() implies ('a' <= #[trigger] name[i] <= 'z' || 'A'
            <= name[i] <= 'Z' || '0' <= name[i] <= '9' || name[i] == '.' || name[i] == '_'
            || name[i] == '-') by {
            assert(name_char(name[i]));
        }
    }
}

/// The words about names and directories.
pub proof fn law_words_about_names_and_directories()
    ensures
        NameError::Empty.text() == "session name cannot be empty"@,
        NameError::TooLong.text() == "session name too long (max 64 characters)"@,
        NameError::BadCharacter.text()
            == "session name must contain only alphanumeric characters, dots, underscores, or hyphens"@,
        NameError::BadStart.text() == "session name must not start with '.' or '-'"@,
        DirError::NotADirectory.text() == "not a directory"@,
        DirError::NotOwned.text() == "directory not owned by current user"@,
        DirError::Insecure.text() == "directory has insecure permissions"@,
{
}

/// A path behind a directory lies in it, with exactly one separator between; an absolute path
/// stands for itself.
pub proof fn law_paths_are_joined_by_one_separator(dir: Seq<char>, path: Seq<char>)
    ensures
        path.len() > 0 && path[0] == '/' ==> joined(dir, path) == path,
        !(path.len() > 0 && path[0] == '/') && dir.len() > 0 && dir.last() != '/' ==> joined(
            dir,
            path,
        ) == dir + seq!['/'] + path,
        !(path.len() > 0 && path[0] == '/') && (dir.len() == 0 || dir.last() == '/') ==> joined(
            dir,
            path,
        ) == dir + path,
{
    assert(dir.push('/') =~= dir + seq!['/']);
}

/// The candidates for the socket directory, one variable after another: a variable that is set to
/// something puts its candidate in front of those of the later ones; one that is unset or empty
/// puts none there. The shared directory for everybody always remains.
pub proof fn law_candidates_one_by_one(env: DirEnv)
    ensures
        ({
            let later = DirEnv { socket_dir: None, ..env };
            candidates_of(env) == (if env.socket_dir is Some && env.socket_dir->0@.len() > 0 {
                seq![
                    DirCandidateView {
                        kind: DirKind::Explicit,
                        base: Seq::empty(),
                        dir: env.socket_dir->0@,
                    },
                ] + candidates_of(later)
            } else {
                candidates_of(later)
            })
        }),
        env.socket_dir is None ==> ({
            let later = DirEnv { runtime_dir: None, ..env };
            candidates_of(env) == (if env.runtime_dir is Some && env.runtime_dir->0@.len() > 0 {
                seq![
                    DirCandidateView {
                        kind: DirKind::Personal,
                        base: Seq::empty(),
                        dir: joined(env.runtime_dir->0@, "mneme"@),
                    },
                ] + candidates_of(later)
            } else {
                candidates_of(later)
            })
        }),
        env.socket_dir is None && env.runtime_dir is None ==> ({
            let later = DirEnv { home: None, ..env };
            candidates_of(env) == (if env.home is Some && env.home->0@.len() > 0 {
                seq![
                    DirCandidateView {
                        kind: DirKind::Personal,
                        base: Seq::empty(),
                        dir: joined(env.home->0@, ".mneme"@),
                    },
                ] + candidates_of(later)
            } else {
                candidates_of(later)
            })
        }),
        env.socket_dir is None && env.runtime_dir is None && env.home is None ==> ({
            let later = DirEnv { tmp_dir: None, ..env };
            let base = joined(env.tmp_dir->0@, "mneme"@);
            candidates_of(env) == (if env.tmp_dir is Some && env.tmp_dir->0@.len() > 0 {
                seq![
                    DirCandidateView {
                        kind: DirKind::Shared,
                        base,
                        dir: joined(base, crate::text::decimal(env.uid as nat)),
                    },
                ] + candidates_of(later)
            } else {
                candidates_of(later)
            })
        }),
        env.socket_dir is None && env.runtime_dir is None && env.home is None && env.tmp_dir is None
            ==> candidates_of(env) == seq![
            DirCandidateView {
                kind: DirKind::Shared,
                base: "/tmp/mneme"@,
                dir: joined("/tmp/mneme"@, crate::text::decimal(env.uid as nat)),
            },
        ],
{
    let a = DirEnv { socket_dir: None, ..env };
    let b = DirEnv { runtime_dir: None, ..env };
    let c = DirEnv { home: None, ..env };
    let d = DirEnv { tmp_dir: None, ..env };
    assert(env.socket_dir is Some && env.socket_dir->0@.len() > 0 ==> candidates_of(env) =~= seq![
        DirCandidateView {
            kind: DirKind::Explicit,
            base: Seq::empty(),
            dir: env.socket_dir->0@,
        },
    ] + candidates_of(a));
    assert(!(env.socket_dir is Some && env.socket_dir->0@.len() > 0) ==> candidates_of(env)
        =~= candidates_of(a));
    if env.socket_dir is None {
        assert(env.runtime_dir is Some && env.runtime_dir->0@.len() > 0 ==> candidates_of(env)
            =~= seq![personal(joined(env.runtime_dir->0@, "mneme"@))] + candidates_of(b));
        assert(!(env.runtime_dir is Some && env.runtime_dir->0@.len() > 0) ==> candidates_of(env)
            =~= candidates_of(b));
    }
    if env.socket_dir is None && env.runtime_dir is None {
        assert(env.home is Some && env.home->0@.len() > 0 ==> candidates_of(env) =~= seq![
            personal(joined(env.home->0@, ".mneme"@)),
        ] + candidates_of(c));
        assert(!(env.home is Some && env.home->0@.len() > 0) ==> candidates_of(env)
            =~= candidates_of(c));
    }
    if env.socket_dir is None && env.runtime_dir is None && env.home is None {
        assert(env.tmp_dir is Some && env.tmp_dir->0@.len() > 0 ==> candidates_of(env) =~= seq![
            shared(joined(env.tmp_dir->0@, "mneme"@), env.uid),
        ] + candidates_of(d));
        assert(!(env.tmp_dir is Some && env.tmp_dir->0@.len() > 0) ==> candidates_of(env)
            =~= candidates_of(d));
        assert(candidates_of(d) =~= seq![shared("/tmp/mneme"@, env.uid)]);
    }
}

/// The search for a directory goes on with the next candidate after each that fails, and stops at
/// the first that can be used.
pub proof fn law_search_goes_in_order(n: nat, tried: nat)
    requires
        tried <= n <= usize::MAX,
    ensures
        tried > 0 ==> (dir_step_of(n, tried, true) matches DirStep::Found(i) && i == tried - 1),
        tried < n ==> (dir_step_of(n, tried, false) matches DirStep::Try(i) && i == tried),
        tried == n ==> dir_step_of(n, tried, false) == DirStep::NotFound,
{
}

/// What the type bits of a mode word mean, whatever the permissions beside them.
pub proof fn law_kinds_of_files(mode: u32)
    ensures
        kind_of_mode(mode) == FileKind::Directory <==> mode & 0o170000 == 0o040000,
        kind_of_mode(mode) == FileKind::Socket <==> mode & 0o170000 == 0o140000,
        kind_of_mode(mode) == FileKind::RegularFile <==> mode & 0o170000 == 0o100000,
        kind_of_mode(mode) == FileKind::Symlink <==> mode & 0o170000 == 0o120000,
        kind_of_mode(mode) == FileKind::Fifo <==> mode & 0o170000 == 0o010000,
        kind_of_mode(mode) == FileKind::CharacterDevice <==> mode & 0o170000 == 0o020000,
        kind_of_mode(mode) == FileKind::BlockDevice <==> mode & 0o170000 == 0o060000,
{
}

/// A directory of the user's own is accepted exactly when it is a directory, belongs to the user,
/// and gives group and others nothing; of several faults the first of these is named.
pub proof fn law_own_directories(mode: u32, owner: u32, user: u32)
    ensures
        dir_problem(mode, owner, user) is None <==> mode & 0o170000 == 0o040000 && owner == user
            && mode & 0o077 == 0,
        dir_problem(mode, owner, user) == Some(DirError::NotADirectory) <==> mode & 0o170000
            != 0o040000,
        dir_problem(mode, owner, user) == Some(DirError::NotOwned) <==> mode & 0o170000 == 0o040000
            && owner != user,
        dir_problem(mode, owner, user) == Some(DirError::Insecure) <==> mode & 0o170000 == 0o040000
            && owner == user && mode & 0o077 != 0,
{
}

/// Candidates for the socket directory are seen as they are, one by one.
pub proof fn law_candidates_as_seen(cs: Seq<DirCandidate>, i: int)
    requires
        0 <= i < cs.len(),
    ensures
        candidate_views(cs).len() == cs.len(),
        candidate_views(cs)[i].kind == cs[i].kind,
        candidate_views(cs)[i].base == cs[i].base@,
        candidate_views(cs)[i].dir == cs[i].dir@,
{
}

} // verus!
