//! Finding a milo file among the entries of an ark, and the ark paths of a
//! character's files.
use vstd::prelude::*;
use vstd::string::{StrSliceExecFns, StringExecFns};

verus! {

/// The position of the last `/` in `s`.
pub open spec fn last_slash(s: Seq<char>) -> Option<int>
    decreases s.len(),
{
    if s.len() == 0 {
        None
    } else if s.last() == '/' {
        Some(s.len() - 1)
    } else {
        last_slash(s.drop_last())
    }
}

/// `path` with a `gen` folder inserted before its file name: `a/b.milo`
/// becomes `a/gen/b.milo`, and `b.milo` becomes `gen/b.milo`.
pub open spec fn gen_folder_path(path: Seq<char>) -> Seq<char> {
    match last_slash(path) {
        None => "gen/"@ + path,
        Some(i) => path.subrange(0, i) + "/gen"@ + path.subrange(i, path.len() as int),
    }
}

/// True when `entry` is the file that `path` asks for: it starts with
/// `path`, or with `path` in its `gen` folder.
pub open spec fn entry_matches(entry: Seq<char>, path: Seq<char>) -> bool {
    path.is_prefix_of(entry) || gen_folder_path(path).is_prefix_of(entry)
}

/// The first entry that `path` asks for.
pub open spec fn first_match(entries: Seq<String>, path: Seq<char>) -> Option<int>
    decreases entries.len(),
{
    if entries.len() == 0 {
        None
    } else {
        match first_match(entries.drop_last(), path) {
            Some(i) => Some(i),
            None => if entry_matches(entries.last()@, path) {
                Some(entries.len() - 1)
            } else {
                None
            },
        }
    }
}

proof fn lemma_last_slash_prefix(s: Seq<char>, k: int)
    requires
        0 <= k < s.len(),
        forall|j: int| k < j < s.len() ==> s[j] != '/',
    ensures
        last_slash(s) == last_slash(s.subrange(0, k + 1)),
    decreases s.len() - k,
{
    if k == s.len() - 1 {
        assert(s.subrange(0, k + 1) =~= s);
    } else {
        lemma_last_slash_prefix(s.drop_last(), k);
        assert(s.drop_last().subrange(0, k + 1) =~= s.subrange(0, k + 1));
    }
}

proof fn lemma_no_slash(s: Seq<char>)
    requires
        forall|j: int| 0 <= j < s.len() ==> s[j] != '/',
    ensures
        last_slash(s) is None,
    decreases s.len(),
{
    if s.len() > 0 {
        lemma_no_slash(s.drop_last());
    }
}

/// The position of the last `/` in `path`.
fn find_last_slash(path: &str) -> (r: Option<usize>)
    ensures
        match r {
            Some(i) => last_slash(path@) == Some(i as int) && i < path@.len(),
            None => last_slash(path@) is None,
        },
{
    let n = path.unicode_len();
    let mut k: usize = n;
    while k > 0
        invariant
            k <= n,
            n == path@.len(),
            forall|j: int| k <= j < n ==> path@[j] != '/',
        decreases k,
    {
        if path.get_char(k - 1) == '/' {
            proof {
                lemma_last_slash_prefix(path@, k - 1);
            }
            return Some(k - 1);
        }
        k = k - 1;
    }
    proof {
        lemma_no_slash(path@);
    }
    None
}

/// `path` with a `gen` folder inserted before its file name.
pub fn get_path_with_gen_folder(path: &str) -> (r: String)
    ensures
        r@ == gen_folder_path(path@),
{
    match find_last_slash(path) {
        None => {
            let mut r = String::from_str("gen/");
            r.append(path);
            r
        },
        Some(i) => {
            let n = path.unicode_len();
            let mut r = String::from_str(path.substring_char(0, i));
            r.append("/gen");
            r.append(path.substring_char(i, n));
            r
        },
    }
}

/// True when `prefix` is a prefix of `s`.
pub(crate) fn starts_with(s: &str, prefix: &str) -> (r: bool)
    ensures
        r == prefix@.is_prefix_of(s@),
{
    let n = s.unicode_len();
    let m = prefix.unicode_len();
    if m > n {
        return false;
    }
    let mut k: usize = 0;
    while k < m
        invariant
            k <= m <= n,
            n == s@.len(),
            m == prefix@.len(),
            forall|j: int| 0 <= j < k ==> prefix@[j] == s@[j],
        decreases m - k,
    {
        if s.get_char(k) != prefix.get_char(k) {
            return false;
        }
        k = k + 1;
    }
    assert(prefix@ =~= s@.subrange(0, m as int));
    true
}

/// The position of the first entry that `path` asks for: the first that
/// starts with `path`, or with `path` in its `gen` folder.
pub fn get_entry_from_path(entries: &Vec<String>, path: &str) -> (r: Option<usize>)
    ensures
        match r {
            Some(i) => first_match(entries@, path@) == Some(i as int),
            None => first_match(entries@, path@) is None,
        },
{
    let gen_path = get_path_with_gen_folder(path);
    let mut k: usize = 0;
    while k < entries.len()
        invariant
            k <= entries@.len(),
            gen_path@ == gen_folder_path(path@),
            first_match(entries@.subrange(0, k as int), path@) is None,
        decreases entries@.len() - k,
    {
        proof {
            assert(entries@.subrange(0, k + 1).drop_last() =~= entries@.subrange(0, k as int));
        }
        let e = entries[k].as_str();
        if starts_with(e, path) || starts_with(e, gen_path.as_str()) {
            proof {
                lemma_first_match_whole(entries@, path@, k + 1);
            }
            return Some(k);
        }
        k = k + 1;
    }
    assert(entries@.subrange(0, k as int) =~= entries@);
    None
}

/// A match found within a prefix is the first match of the whole.
proof fn lemma_first_match_whole(entries: Seq<String>, path: Seq<char>, k: int)
    requires
        0 <= k <= entries.len(),
        first_match(entries.subrange(0, k), path) is Some,
    ensures
        first_match(entries, path) == first_match(entries.subrange(0, k), path),
    decreases entries.len() - k,
{
    if k == entries.len() {
        assert(entries.subrange(0, k) =~= entries);
    } else {
        assert(entries.subrange(0, k + 1).drop_last() =~= entries.subrange(0, k));
        lemma_first_match_whole(entries, path, k + 1);
    }
}

/// The ark path of a character's outfit file: `char/<s>/og/<s>_ui.milo`
/// for a guitarist, `char/<s>/og/<s>.milo` otherwise.
pub fn character_milo_path(shortname: &str, is_guitarist: bool) -> (r: String)
    ensures
        r@ == "char/"@ + shortname@ + "/og/"@ + shortname@ + (if is_guitarist {
            "_ui"@
        } else {
            Seq::empty()
        }) + ".milo"@,
{
    let mut r = String::from_str("char/");
    r.append(shortname);
    r.append("/og/");
    r.append(shortname);
    if is_guitarist {
        r.append("_ui");
    }
    r.append(".milo");
    r
}

/// The ark path of a character's animation file:
/// `char/<s>/anims/<s>_ui.milo`.
pub fn animation_milo_path(shortname: &str) -> (r: String)
    ensures
        r@ == "char/"@ + shortname@ + "/anims/"@ + shortname@ + "_ui.milo"@,
{
    let mut r = String::from_str("char/");
    r.append(shortname);
    r.append("/anims/");
    r.append(shortname);
    r.append("_ui.milo");
    r
}

/// What kind of file a path names, by its extension.
#[derive(Clone, Copy, PartialEq, Eq, Structural, Debug)]
pub enum FileKind {
    /// An ark header.
    Ark,
    /// A milo scene.
    Milo,
    /// Neither.
    Other,
}

/// True when `sub` occurs in `s`.
pub open spec fn occurs_in(sub: Seq<char>, s: Seq<char>) -> bool {
    exists|i: int| 0 <= i && i + sub.len() <= s.len() && #[trigger] s.subrange(i, i + sub.len()) == sub
}

/// True when `i` is the position of the first `.` in `s`.
pub open spec fn is_first_dot(s: Seq<char>, i: int) -> bool {
    0 <= i < s.len() && s[i] == '.' && forall|j: int| 0 <= j < i ==> s[j] != '.'
}

/// The full extension of a file name: from its first `.` on, or the whole
/// name when it has none.
pub open spec fn full_extension(name: Seq<char>) -> Seq<char> {
    if exists|i: int| is_first_dot(name, i) {
        name.subrange(choose|i: int| is_first_dot(name, i), name.len() as int)
    } else {
        name
    }
}

/// The kind of file named `name`: an ark when its full extension holds
/// `hdr`, else a milo scene when it holds `milo`, `gh` or `rnd`.
pub open spec fn file_kind(name: Seq<char>) -> FileKind {
    let ext = full_extension(name);
    if occurs_in("hdr"@, ext) {
        FileKind::Ark
    } else if occurs_in("milo"@, ext) || occurs_in("gh"@, ext) || occurs_in("rnd"@, ext) {
        FileKind::Milo
    } else {
        FileKind::Other
    }
}

/// True when `sub` occurs in `s`.
fn contains_str(s: &str, sub: &str) -> (r: bool)
    ensures
        r == occurs_in(sub@, s@),
{
    let n = s.unicode_len();
    let m = sub.unicode_len();
    if m > n {
        return false;
    }
    let mut i: usize = 0;
    while i <= n - m
        invariant
            m <= n,
            n == s@.len(),
            m == sub@.len(),
            i <= n - m + 1,
            forall|a: int| 0 <= a < i ==> #[trigger] s@.subrange(a, a + m) != sub@,
        decreases n - m + 1 - i,
    {
        if starts_with(s.substring_char(i, n), sub) {
            assert(s@.subrange(i as int, n as int).subrange(0, m as int) =~= s@.subrange(
                i as int,
                i + m,
            ));
            return true;
        }
        assert(s@.subrange(i as int, n as int).subrange(0, m as int) =~= s@.subrange(
            i as int,
            i + m,
        ));
        i = i + 1;
    }
    assert forall|a: int| 0 <= a && a + m <= n implies #[trigger] s@.subrange(a, a + m) != sub@ by {
        assert(a < i);
    }
    false
}

/// The full extension of `name`.
fn full_extension_of(name: &str) -> (r: &str)
    ensures
        r@ == full_extension(name@),
{
    let n = name.unicode_len();
    let mut i: usize = 0;
    while i < n
        invariant
            i <= n,
            n == name@.len(),
            forall|j: int| 0 <= j < i ==> name@[j] != '.',
        decreases n - i,
    {
        if name.get_char(i) == '.' {
            assert(is_first_dot(name@, i as int));
            proof {
                let c = choose|c: int| is_first_dot(name@, c);
                assert(c == i);
            }
            return name.substring_char(i, n);
        }
        i = i + 1;
    }
    assert(!exists|c: int| is_first_dot(name@, c));
    name
}

/// Decides what a file name opens as, by its full extension.
pub fn file_kind_of(file_name: &str) -> (r: FileKind)
    ensures
        r == file_kind(file_name@),
{
    let ext = full_extension_of(file_name);
    if contains_str(ext, "hdr") {
        FileKind::Ark
    } else if contains_str(ext, "milo") || contains_str(ext, "gh") || contains_str(ext, "rnd") {
        FileKind::Milo
    } else {
        FileKind::Other
    }
}

} // verus!
