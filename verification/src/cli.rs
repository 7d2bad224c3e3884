//! What the command-line tool decides: the lines of a listing and how a tree is walked.
use vstd::prelude::*;
use crate::client::types::{DirectoryEntry, FileMetadataResponse};
use crate::text::{concat_str, owned, u64_to_decimal, decimal, chars_of, string_of};
use crate::path::same_text;

verus! {

/// Minimum file size (bytes) for which a copy shows a progress bar.
pub const CP_PROGRESS_THRESHOLD: u64 = 64 * 1024;

/// Whether copying a file of `size` bytes shows a progress bar.
pub fn shows_progress(size: u64) -> (r: bool)
    ensures
        r == (size >= CP_PROGRESS_THRESHOLD),
{
    size >= CP_PROGRESS_THRESHOLD
}

/// `s` right-aligned in a field of `width` characters.
pub open spec fn pad_left(s: Seq<char>, width: nat) -> Seq<char> {
    if s.len() >= width {
        s
    } else {
        Seq::new((width - s.len()) as nat, |i: int| ' ') + s
    }
}

/// The modification time as listed: the text, or `unknown`.
pub open spec fn modified_text(m: Option<String>) -> Seq<char> {
    match m {
        Some(t) => t@,
        None => "unknown"@,
    }
}

/// A listing line: permissions, the size right-aligned in ten columns, the
/// modification time and the path, separated by spaces.
pub open spec fn ls_line_spec(e: DirectoryEntry) -> Seq<char> {
    e.permissions@ + " "@ + pad_left(decimal(e.size as nat), 10) + " "@ + modified_text(e.modified)
        + " "@ + e.path@
}

/// The listing line of an entry.
pub fn ls_line(e: &DirectoryEntry) -> (r: String)
    ensures
        r@ == ls_line_spec(*e),
{
    let size = u64_to_decimal(e.size);
    let n = size.as_str().unicode_len();
    let mut out = concat_str(e.permissions.as_str(), " ");
    let ghost head = out@;
    let mut pad: usize = n;
    proof {
        reveal_strlit(" ");
    }
    while pad < 10
        invariant
            n <= pad <= 10 || (n > 10 && pad == n),
            out@ == head + Seq::new((pad - n) as nat, |i: int| ' '),
        decreases 10 - pad,
    {
        out.append(" ");
        pad = pad + 1;
        proof {
            reveal_strlit(" ");
            assert(out@ =~= head + Seq::new((pad - n) as nat, |i: int| ' '));
        }
    }
    proof {
        if n >= 10 {
            assert(Seq::new((pad - n) as nat, |i: int| ' ') =~= Seq::<char>::empty());
        }
    }
    out.append(size.as_str());
    out.append(" ");
    match &e.modified {
        Some(m) => out.append(m.as_str()),
        None => out.append("unknown"),
    }
    out.append(" ");
    out.append(e.path.as_str());
    proof {
        assert(out@ =~= ls_line_spec(*e));
    }
    out
}

/// `s` without its trailing slashes.
pub open spec fn trim_end_slashes(s: Seq<char>) -> Seq<char>
    decreases s.len(),
{
    if s.len() > 0 && s.last() == '/' {
        trim_end_slashes(s.drop_last())
    } else {
        s
    }
}

/// What follows the last `/` of `s` (all of `s` when it has none).
pub open spec fn last_segment(s: Seq<char>) -> Seq<char>
    decreases s.len(),
{
    if s.len() == 0 {
        s
    } else if s.last() == '/' {
        Seq::empty()
    } else {
        last_segment(s.drop_last()).push(s.last())
    }
}

/// The name a tree shows for an entry path.
pub open spec fn tree_name_spec(p: Seq<char>) -> Seq<char> {
    last_segment(trim_end_slashes(p))
}

/// Whether a tree shows an entry: not `.` nor `..`.
pub open spec fn tree_visible(p: Seq<char>) -> bool {
    tree_name_spec(p) != "."@ && tree_name_spec(p) != ".."@
}

/// The entry paths that a tree shows, in order.
pub open spec fn visible_paths(s: Seq<Seq<char>>) -> Seq<Seq<char>>
    decreases s.len(),
{
    if s.len() == 0 {
        Seq::empty()
    } else if tree_visible(s.last()) {
        visible_paths(s.drop_last()).push(s.last())
    } else {
        visible_paths(s.drop_last())
    }
}

fn trim_end_slashes_exec(t: &Vec<char>) -> (r: Vec<char>)
    ensures
        r@ == trim_end_slashes(t@),
{
    let mut n = t.len();
    proof {
        assert(t@.subrange(0, n as int) =~= t@);
    }
    while n > 0 && t[n - 1] == '/'
        invariant
            n <= t@.len(),
            trim_end_slashes(t@) == trim_end_slashes(t@.subrange(0, n as int)),
        decreases n,
    {
        proof {
            assert(t@.subrange(0, n as int).drop_last() =~= t@.subrange(0, n - 1));
        }
        n = n - 1;
    }
    let mut out: Vec<char> = Vec::new();
    let mut i: usize = 0;
    while i < n
        invariant
            i <= n <= t@.len(),
            out@ == t@.subrange(0, i as int),
        decreases n - i,
    {
        out.push(t[i]);
        i = i + 1;
        proof {
            assert(out@ =~= t@.subrange(0, i as int));
        }
    }
    out
}

fn last_segment_exec(t: &Vec<char>) -> (r: Vec<char>)
    ensures
        r@ == last_segment(t@),
{
    let n = t.len();
    let mut k = n;
    proof {
        assert(t@.subrange(0, n as int) =~= t@);
        assert(t@.subrange(n as int, n as int) =~= Seq::<char>::empty());
    }
    while k > 0 && t[k - 1] != '/'
        invariant
            k <= n == t@.len(),
            last_segment(t@) == last_segment(t@.subrange(0, k as int)) + t@.subrange(k as int, n as int),
        decreases k,
    {
        proof {
            let s = t@.subrange(0, k as int);
            assert(s.drop_last() =~= t@.subrange(0, k - 1));
            assert(last_segment(s) == last_segment(t@.subrange(0, k - 1)).push(t@[k - 1]));
            assert(last_segment(t@.subrange(0, k - 1)).push(t@[k - 1]) + t@.subrange(k as int, n as int)
                =~= last_segment(t@.subrange(0, k - 1)) + t@.subrange(k - 1, n as int));
        }
        k = k - 1;
    }
    proof {
        assert(last_segment(t@.subrange(0, k as int)) =~= Seq::<char>::empty());
    }
    let mut out: Vec<char> = Vec::new();
    let mut i: usize = k;
    while i < n
        invariant
            k <= i <= n == t@.len(),
            out@ == t@.subrange(k as int, i as int),
        decreases n - i,
    {
        out.push(t[i]);
        i = i + 1;
        proof {
            assert(out@ =~= t@.subrange(k as int, i as int));
        }
    }
    out
}

/// The name that a tree shows for the entry path `path`.
pub fn tree_name(path: &str) -> (r: String)
    ensures
        r@ == tree_name_spec(path@),
{
    let c = chars_of(path);
    let t = trim_end_slashes_exec(&c);
    let s = last_segment_exec(&t);
    string_of(s.as_slice())
}

/// A line of a tree, for one entry.
pub struct TreeRow {
    /// The line to print: the prefix, the branch and the name.
    pub line: String,
    /// The entry's path without trailing slashes (what its metadata is asked for).
    pub full_path: String,
    /// The name shown.
    pub name: String,
    /// The prefix of the lines below this entry, when it is a directory.
    pub child_prefix: String,
}

/// The views of a row: line, full path, name and child prefix.
pub open spec fn row_view(r: TreeRow) -> (Seq<char>, Seq<char>, Seq<char>, Seq<char>) {
    (r.line@, r.full_path@, r.name@, r.child_prefix@)
}

/// The row of entry path `p` under prefix `prefix`; `last` when it is the last entry
/// shown in its directory.
pub open spec fn row_spec(prefix: Seq<char>, p: Seq<char>, last: bool) -> (Seq<char>, Seq<char>, Seq<char>, Seq<char>) {
    let name = tree_name_spec(p);
    (
        prefix + (if last { "└── "@ } else { "├── "@ }) + name,
        trim_end_slashes(p),
        name,
        prefix + (if last { "    "@ } else { "│   "@ }),
    )
}

/// The paths of a directory's entries.
pub open spec fn entry_paths(s: Seq<DirectoryEntry>) -> Seq<Seq<char>> {
    s.map_values(|e: DirectoryEntry| e.path@)
}

/// The rows of a directory listed under `prefix`: the entries other than `.` and `..`,
/// in order, the last one drawn with the closing branch.
pub fn tree_rows(prefix: &str, entries: &Vec<DirectoryEntry>) -> (r: Vec<TreeRow>)
    ensures
        r@.len() == visible_paths(entry_paths(entries@)).len(),
        forall|i: int| 0 <= i < r@.len() ==> #[trigger] row_view(r@[i]) == row_spec(
            prefix@,
            visible_paths(entry_paths(entries@))[i],
            i == r@.len() - 1,
        ),
{
    proof {
        reveal_strlit(".");
        reveal_strlit("..");
        reveal_strlit("└── ");
        reveal_strlit("├── ");
        reveal_strlit("    ");
        reveal_strlit("│   ");
    }
    let ghost paths = entry_paths(entries@);
    let mut kept: Vec<String> = Vec::new();
    let mut i: usize = 0;
    while i < entries.len()
        invariant
            i <= entries@.len(),
            paths == entry_paths(entries@),
            kept@.map_values(|s: String| s@) == visible_paths(paths.subrange(0, i as int)),
        decreases entries.len() - i,
    {
        let name = tree_name(entries[i].path.as_str());
        let dot = same_text(name.as_str(), ".");
        let dotdot = same_text(name.as_str(), "..");
        proof {
            assert(paths.subrange(0, i + 1).drop_last() =~= paths.subrange(0, i as int));
            assert(paths.subrange(0, i + 1).last() == entries@[i as int].path@);
        }
        if !dot && !dotdot {
            let ghost before = kept@.map_values(|s: String| s@);
            kept.push(entries[i].path.clone());
            proof {
                assert(kept@.map_values(|s: String| s@) =~= before.push(entries@[i as int].path@));
            }
        }
        i = i + 1;
    }
    proof {
        assert(paths.subrange(0, entries@.len() as int) =~= paths);
    }
    let ghost vis = visible_paths(paths);
    let mut rows: Vec<TreeRow> = Vec::new();
    let n = kept.len();
    let mut j: usize = 0;
    while j < n
        invariant
            j <= n == kept@.len(),
            kept@.map_values(|s: String| s@) == vis,
            rows@.len() == j,
            forall|m: int| 0 <= m < j ==> #[trigger] row_view(rows@[m]) == row_spec(prefix@, vis[m], m == n - 1),
        decreases n - j,
    {
        let p = kept[j].as_str();
        proof {
            assert(p@ == vis[j as int]);
        }
        let name = tree_name(p);
        let chars = chars_of(p);
        let trimmed = trim_end_slashes_exec(&chars);
        let full_path = string_of(trimmed.as_slice());
        let last = j == n - 1;
        let (line, child_prefix) = if last {
            let mut l = concat_str(prefix, "└── ");
            l.append(name.as_str());
            (l, concat_str(prefix, "    "))
        } else {
            let mut l = concat_str(prefix, "├── ");
            l.append(name.as_str());
            (l, concat_str(prefix, "│   "))
        };
        let row = TreeRow { line, full_path, name, child_prefix };
        proof {
            assert(row_view(row) == row_spec(prefix@, vis[j as int], j == n - 1));
        }
        rows.push(row);
        j = j + 1;
    }
    rows
}

/// The path of entry `name` below the directory `path` that a tree walks.
pub open spec fn tree_subpath_spec(path: Seq<char>, name: Seq<char>) -> Seq<char> {
    if path.len() > 0 && path.last() == '/' {
        path + name
    } else if path == "/"@ {
        "/"@ + name
    } else {
        path + "/"@ + name
    }
}

/// The path of entry `name` below the directory `path`.
pub fn tree_subpath(path: &str, name: &str) -> (r: String)
    ensures
        r@ == tree_subpath_spec(path@, name@),
{
    let c = chars_of(path);
    if c.len() > 0 && c[c.len() - 1] == '/' {
        concat_str(path, name)
    } else if same_text(path, "/") {
        concat_str("/", name)
    } else {
        let mut out = concat_str(path, "/");
        out.append(name);
        out
    }
}

/// The walk of a tree keeps the directories still to list on a stack: the directories
/// found in one listing go on top in reverse, so that they are listed next, in the order
/// they were found.
pub fn tree_push_pending(stack: &mut Vec<(String, String)>, found: Vec<(String, String)>)
    ensures
        final(stack)@ == old(stack)@ + found@.reverse(),
{
    let ghost start = stack@;
    let ghost all = found@;
    let mut rest = found;
    while rest.len() > 0
        invariant
            rest@.len() <= all.len(),
            rest@ == all.subrange(0, rest@.len() as int),
            stack@ == start + all.subrange(rest@.len() as int, all.len() as int).reverse(),
        decreases rest.len(),
    {
        let ghost n = rest@.len();
        let x = rest.pop().unwrap();
        stack.push(x);
        proof {
            assert(x == all[n - 1]);
            assert(rest@ =~= all.subrange(0, n - 1));
            assert(all.subrange(n - 1, all.len() as int).reverse() =~= all.subrange(n as int, all.len() as int).reverse().push(all[n - 1]));
        }
    }
    proof {
        assert(all.subrange(0, all.len() as int) =~= all);
    }
}

/// Whether a tree descends into an entry with metadata `meta`: when it is a directory.
pub fn tree_descends(meta: &FileMetadataResponse) -> (r: bool)
    ensures
        r == (meta.file_type@ == "directory"@),
{
    same_text(meta.file_type.as_str(), "directory")
}

} // verus!
