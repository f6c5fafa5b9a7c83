use vstd::prelude::*;

verus! {

/// One indexed filesystem entry: a file or a directory.
#[derive(Clone, Debug, PartialEq, Eq)]
pub struct FileNode {
    /// Full path of the entry rendered as text; the key of the entry in an index.
    pub id: String,
    /// Final path component, or the full id where the path has none.
    pub name: String,
    pub is_dir: bool,
    /// Byte count reported by the entry's metadata.
    pub size: u64,
    /// `"Folder"`, the upper-cased extension, or `"FILE"`.
    pub file_type: String,
    /// Milliseconds since the Unix epoch; 0 where no timestamp was available.
    pub last_modified: u64,
    /// Ids of the direct children, in enumeration order.
    pub children: Vec<String>,
}

/// Mathematical model of a [`FileNode`].
pub struct NodeView {
    pub id: Seq<char>,
    pub name: Seq<char>,
    pub is_dir: bool,
    pub size: u64,
    pub file_type: Seq<char>,
    pub last_modified: u64,
    pub children: Seq<Seq<char>>,
}

pub open spec fn strings_view(v: Seq<String>) -> Seq<Seq<char>> {
    v.map_values(|s: String| s@)
}

pub open spec fn opt_string_view(o: Option<String>) -> Option<Seq<char>> {
    match o {
        Some(s) => Some(s@),
        None => None,
    }
}

impl View for FileNode {
    type V = NodeView;

    open spec fn view(&self) -> NodeView {
        NodeView {
            id: self.id@,
            name: self.name@,
            is_dir: self.is_dir,
            size: self.size,
            file_type: self.file_type@,
            last_modified: self.last_modified,
            children: strings_view(self.children@),
        }
    }
}

/// What the metadata of one entry reports.
#[derive(Clone, Copy, Debug, PartialEq, Eq)]
pub struct EntryMeta {
    pub is_dir: bool,
    pub size: u64,
    /// Modification time as seconds and sub-second nanoseconds since the Unix
    /// epoch; `None` where it cannot be read or lies before the epoch.
    pub modified: Option<(u64, u32)>,
}

/// Whole milliseconds of a duration given as seconds and sub-second nanoseconds.
pub open spec fn millis_of(secs: u64, nanos: u32) -> int {
    secs * 1000 + nanos / 1_000_000
}

/// The stored timestamp: the milliseconds reduced to 64 bits, or 0 when absent.
pub open spec fn stamp_of(modified: Option<(u64, u32)>) -> u64 {
    match modified {
        Some((secs, nanos)) => (millis_of(secs, nanos) % 0x1_0000_0000_0000_0000) as u64,
        None => 0,
    }
}

/// Index of the last `'.'` in `s`, or -1 where there is none.
pub open spec fn last_dot(s: Seq<char>) -> int
    decreases s.len(),
{
    if s.len() == 0 {
        -1
    } else if s.last() == '.' {
        s.len() - 1
    } else {
        last_dot(s.drop_last())
    }
}

/// The extension of a file name: what follows its last dot, unless there is
/// no dot or the only dot is the leading one.
pub open spec fn extension_of(name: Seq<char>) -> Option<Seq<char>> {
    let j = last_dot(name);
    if j <= 0 {
        None
    } else {
        Some(name.skip(j + 1))
    }
}

pub open spec fn folder_label() -> Seq<char> {
    seq!['F', 'o', 'l', 'd', 'e', 'r']
}

pub open spec fn plain_file_label() -> Seq<char> {
    seq!['F', 'I', 'L', 'E']
}

/// Upper-case form of a string, as `str::to_uppercase` computes it.
pub uninterp spec fn upper_of(s: Seq<char>) -> Seq<char>;

/// The type label of an entry.
pub open spec fn file_type_of(is_dir: bool, file_name: Option<Seq<char>>) -> Seq<char> {
    if is_dir {
        folder_label()
    } else {
        match file_name {
            Some(n) => match extension_of(n) {
                Some(e) => upper_of(e),
                None => plain_file_label(),
            },
            None => plain_file_label(),
        }
    }
}

/// The node that describes an entry with the given id, final component,
/// metadata and child ids.
pub open spec fn node_view(
    id: Seq<char>,
    file_name: Option<Seq<char>>,
    meta: EntryMeta,
    children: Seq<Seq<char>>,
) -> NodeView {
    NodeView {
        id,
        name: match file_name {
            Some(n) => n,
            None => id,
        },
        is_dir: meta.is_dir,
        size: meta.size,
        file_type: file_type_of(meta.is_dir, file_name),
        last_modified: stamp_of(meta.modified),
        children,
    }
}

/// Relies on `str::rsplit_once`: splits at the last occurrence of the
/// delimiter, or gives `None` where it does not occur.
#[verifier::external_body]
fn split_last_dot(s: &str) -> (r: Option<(String, String)>)
    ensures
        match r {
            None => !s@.contains('.'),
            Some((a, b)) => s@ == a@ + seq!['.'] + b@ && !b@.contains('.'),
        },
{
    s.rsplit_once('.').map(|(a, b)| (a.to_string(), b.to_string()))
}

/// Relies on `str::to_uppercase`: the result depends on the characters alone.
#[verifier::external_body]
fn uppercase(s: &str) -> (r: String)
    ensures
        r@ == upper_of(s@),
{
    s.to_uppercase()
}

proof fn lemma_last_dot_none(s: Seq<char>)
    requires
        !s.contains('.'),
    ensures
        last_dot(s) == -1,
    decreases s.len(),
{
    if s.len() > 0 {
        assert(s.drop_last().len() < s.len());
        if s.drop_last().contains('.') {
            let i = choose|i: int| 0 <= i < s.drop_last().len() && s.drop_last()[i] == '.';
            assert(s[i] == '.');
        }
        assert(s[s.len() - 1] != '.');
        lemma_last_dot_none(s.drop_last());
    }
}

proof fn lemma_last_dot_split(a: Seq<char>, b: Seq<char>)
    requires
        !b.contains('.'),
    ensures
        last_dot(a + seq!['.'] + b) == a.len(),
    decreases b.len(),
{
    let s = a + seq!['.'] + b;
    if b.len() == 0 {
        assert(s.last() == '.');
    } else {
        assert(s[s.len() - 1] == b[b.len() - 1]);
        assert(s.drop_last() =~= a + seq!['.'] + b.drop_last());
        if b.drop_last().contains('.') {
            let i = choose|i: int| 0 <= i < b.drop_last().len() && b.drop_last()[i] == '.';
            assert(b[i] == '.');
        }
        lemma_last_dot_split(a, b.drop_last());
    }
}

/// The extension of a file name, as `Path::extension` gives it.
pub fn extension(name: &str) -> (r: Option<String>)
    ensures
        opt_string_view(r) == extension_of(name@),
{
    match split_last_dot(name) {
        None => {
            proof {
                lemma_last_dot_none(name@);
            }
            None
        },
        Some((stem, ext)) => {
            proof {
                lemma_last_dot_split(stem@, ext@);
                assert(name@.skip(stem@.len() as int + 1) =~= ext@);
            }
            if stem.as_str().is_empty() {
                None
            } else {
                Some(ext)
            }
        },
    }
}

/// The type label of an entry: `"Folder"` for a directory, else the
/// upper-cased extension of its final component, else `"FILE"`.
pub fn file_type(is_dir: bool, file_name: &Option<String>) -> (r: String)
    ensures
        r@ == file_type_of(is_dir, opt_string_view(*file_name)),
{
    if is_dir {
        proof {
            reveal_strlit("Folder");
        }
        return "Folder".to_owned();
    }
    let ext = match file_name {
        Some(n) => extension(n.as_str()),
        None => None,
    };
    match ext {
        Some(e) => uppercase(e.as_str()),
        None => {
            proof {
                reveal_strlit("FILE");
            }
            "FILE".to_owned()
        },
    }
}

/// The stored timestamp for a modification time: whole milliseconds since
/// the epoch kept to 64 bits, or 0 where there is none.
pub fn stamp(modified: Option<(u64, u32)>) -> (r: u64)
    ensures
        r == stamp_of(modified),
{
    match modified {
        Some((secs, nanos)) => {
            let millis: u128 = secs as u128 * 1000 + (nanos / 1_000_000) as u128;
            let low: u128 = millis % 0x1_0000_0000_0000_0000u128;
            low as u64
        },
        None => 0,
    }
}

/// Builds the node of an entry from its id, final component, metadata and
/// the ids of its children.
pub fn make_node(id: String, file_name: Option<String>, meta: &EntryMeta, children: Vec<String>) -> (r: FileNode)
    ensures
        r@ == node_view(id@, opt_string_view(file_name), *meta, strings_view(children@)),
{
    let file_type = file_type(meta.is_dir, &file_name);
    let name = match file_name {
        Some(n) => n,
        None => id.clone(),
    };
    FileNode {
        id,
        name,
        is_dir: meta.is_dir,
        size: meta.size,
        file_type,
        last_modified: stamp(meta.modified),
        children,
    }
}

/// A modification time is stored as its whole milliseconds since the epoch
/// wherever they fit in 64 bits, and a missing one as 0.
pub proof fn lemma_stamp_is_millis(secs: u64, nanos: u32)
    requires
        millis_of(secs, nanos) < 0x1_0000_0000_0000_0000,
    ensures
        stamp_of(Some((secs, nanos))) == millis_of(secs, nanos),
        stamp_of(None) == 0,
{
}

/// A directory's type is `"Folder"`, and a file whose name has no extension
/// is a `"FILE"`.
pub proof fn lemma_fallback_labels(name: Option<Seq<char>>)
    ensures
        file_type_of(true, name) == folder_label(),
        match name {
            Some(n) => extension_of(n) is None,
            None => true,
        } ==> file_type_of(false, name) == plain_file_label(),
{
}

} // verus!
