//! The cursor store: a crash-safe protocol that replaces the cursor file by
//! writing a sibling staging file and renaming it over the target.
use vstd::prelude::*;

verus! {

/// `path` with its extension replaced by `ext` (or `ext` added, where the
/// file name has none).
pub uninterp spec fn path_with_extension(path: Seq<char>, ext: Seq<char>) -> Seq<char>;

/// Relies on std's `PathBuf::set_extension`, a pure rewrite of the path
/// text; it panics on an extension that holds a separator.
#[verifier::external_body]
fn with_extension(path: &str, ext: &str) -> (r: String)
    requires
        !ext@.contains('/'),
    ensures
        r@ == path_with_extension(path@, ext@),
{
    let mut p = std::path::PathBuf::from(path);
    p.set_extension(ext);
    p.to_string_lossy().into_owned()
}

/// The extension of the staging file written before the cursor file is replaced.
pub open spec fn staging_extension() -> Seq<char> {
    "~"@
}

/// The staging file that a save of the cursor at `path` writes first: the
/// sibling with the extension `~`, or, where that would be the cursor file
/// itself (its extension already is `~`), the path with `~` appended.
pub open spec fn staging_name(path: Seq<char>) -> Seq<char> {
    if path_with_extension(path, staging_extension()) != path {
        path_with_extension(path, staging_extension())
    } else {
        path + staging_extension()
    }
}

/// The staging file is never the cursor file itself.
pub proof fn lemma_staging_differs(path: Seq<char>)
    ensures
        staging_name(path) != path,
{
    if path_with_extension(path, staging_extension()) == path {
        assert((path + staging_extension()).len() > path.len()) by {
            reveal_strlit("~");
        }
    }
}

/// One file-system step of a save.
#[derive(Debug)]
pub enum CursorOp {
    /// Create or truncate `path` and write `contents` into it.
    Write { path: String, contents: String },
    /// Atomically replace `to` by `from`.
    Rename { from: String, to: String },
}

/// The mathematical content of a `CursorOp`.
pub enum OpView {
    Write { path: Seq<char>, contents: Seq<char> },
    Rename { from: Seq<char>, to: Seq<char> },
}

impl View for CursorOp {
    type V = OpView;

    open spec fn view(&self) -> OpView {
        match self {
            CursorOp::Write { path, contents } => OpView::Write { path: path@, contents: contents@ },
            CursorOp::Rename { from, to } => OpView::Rename { from: from@, to: to@ },
        }
    }
}

/// A directory of files, each path mapped to the text it holds.
pub type Disk = Map<Seq<char>, Seq<char>>;

/// The files after `op` has completed on `disk`.
pub open spec fn apply(disk: Disk, op: OpView) -> Disk {
    match op {
        OpView::Write { path, contents } => disk.insert(path, contents),
        OpView::Rename { from, to } => if disk.contains_key(from) {
            disk.remove(from).insert(to, disk[from])
        } else {
            disk
        },
    }
}

/// The files after the first `n` steps of `ops`; a crash after `n` steps leaves these.
pub open spec fn apply_prefix(disk: Disk, ops: Seq<OpView>, n: nat) -> Disk
    decreases n,
{
    if n == 0 || ops.len() == 0 {
        disk
    } else if n > ops.len() {
        apply_prefix(disk, ops, ops.len())
    } else {
        apply(apply_prefix(disk, ops, (n - 1) as nat), ops[n - 1])
    }
}

/// The steps that save `token` as the cursor at `path`.
pub open spec fn save_ops(path: Seq<char>, token: Seq<char>) -> Seq<OpView> {
    seq![
        OpView::Write { path: staging_name(path), contents: token },
        OpView::Rename { from: staging_name(path), to: path },
    ]
}

/// The steps that durably record `token` as the cursor kept at `path`,
/// in the order in which they must be carried out.
pub fn save_plan(path: &str, token: &str) -> (r: Vec<CursorOp>)
    ensures
        r@.map_values(|op: CursorOp| op@) == save_ops(path@, token@),
        staging_name(path@) != path@,
{
    proof {
        reveal_strlit("~");
        lemma_staging_differs(path@);
    }
    assert(!"~"@.contains('/')) by {
        assert("~"@[0] == '~');
    }
    let sibling = with_extension(path, "~");
    let target = String::from_str(path);
    let staging = if sibling == target {
        let mut appended = String::from_str(path);
        appended.append("~");
        appended
    } else {
        sibling
    };
    let write = CursorOp::Write { path: staging.clone(), contents: String::from_str(token) };
    let rename = CursorOp::Rename { from: staging, to: target };
    let r = vec![write, rename];
    assert(r@.map_values(|op: CursorOp| op@) =~= save_ops(path@, token@));
    r
}

/// A save never exposes a partial cursor: a crash before the rename leaves
/// the cursor file exactly as it was (absent, or with its old token), and
/// once the rename has happened the file holds exactly the new token.
pub proof fn lemma_save_is_atomic(disk: Disk, path: Seq<char>, token: Seq<char>)
    ensures
        apply_prefix(disk, save_ops(path, token), 0).contains_key(path) == disk.contains_key(path),
        apply_prefix(disk, save_ops(path, token), 1).contains_key(path) == disk.contains_key(path),
        disk.contains_key(path) ==> apply_prefix(disk, save_ops(path, token), 1)[path] == disk[path],
        apply_prefix(disk, save_ops(path, token), 2).contains_key(path),
        apply_prefix(disk, save_ops(path, token), 2)[path] == token,
{
    lemma_staging_differs(path);
    let ops = save_ops(path, token);
    assert(ops.len() == 2);
    assert(apply_prefix(disk, ops, 0) == disk);
    assert(apply_prefix(disk, ops, 1) == apply(disk, ops[0]));
    assert(apply_prefix(disk, ops, 2) == apply(apply(disk, ops[0]), ops[1]));
}

} // verus!
