use vstd::prelude::*;

verus! {

// A path is modelled as a string of characters in which '/' separates
// components. A name (a single component) carries an extension when a '.'
// occurs past its first character; the extension is what follows the last
// such '.', the stem what precedes it. These definitions follow the
// platform's path rules for ordinary names: a leading '.' (a hidden file)
// does not begin an extension.

/// Index of the last occurrence of `c` at a position `>= lo` in `s`,
/// or `None` when there is none.
pub open spec fn last_index_of(s: Seq<char>, c: char, lo: int) -> Option<int>
    decreases s.len(),
{
    if s.len() == 0 || s.len() <= lo {
        None
    } else if s[s.len() - 1] == c {
        Some(s.len() - 1)
    } else {
        last_index_of(s.drop_last(), c, lo)
    }
}

pub proof fn lemma_last_index_of_some(s: Seq<char>, c: char, lo: int, j: int)
    requires
        0 <= lo,
        lo <= j < s.len(),
        s[j] == c,
        forall|k: int| j < k < s.len() ==> s[k] != c,
    ensures
        last_index_of(s, c, lo) == Some(j),
    decreases s.len(),
{
    if j == s.len() - 1 {
    } else {
        assert(forall|k: int| 0 <= k < s.len() - 1 ==> s.drop_last()[k] == s[k]);
        lemma_last_index_of_some(s.drop_last(), c, lo, j);
    }
}

pub proof fn lemma_last_index_of_none(s: Seq<char>, c: char, lo: int)
    requires
        0 <= lo,
        forall|k: int| lo <= k < s.len() ==> s[k] != c,
    ensures
        last_index_of(s, c, lo) is None,
    decreases s.len(),
{
    if s.len() == 0 || s.len() <= lo {
    } else {
        assert(forall|k: int| 0 <= k < s.len() - 1 ==> s.drop_last()[k] == s[k]);
        lemma_last_index_of_none(s.drop_last(), c, lo);
    }
}

pub proof fn lemma_last_index_of_props(s: Seq<char>, c: char, lo: int)
    requires
        0 <= lo,
    ensures
        match last_index_of(s, c, lo) {
            Some(j) => lo <= j < s.len() && s[j] == c && forall|k: int|
                j < k < s.len() ==> s[k] != c,
            None => forall|k: int| lo <= k < s.len() ==> s[k] != c,
        },
    decreases s.len(),
{
    if s.len() == 0 || s.len() <= lo {
    } else if s[s.len() - 1] == c {
    } else {
        assert(forall|k: int| 0 <= k < s.len() - 1 ==> s.drop_last()[k] == s[k]);
        lemma_last_index_of_props(s.drop_last(), c, lo);
    }
}

/// Scan `s` from the end for the last occurrence of `c` at an index `>= lo`.
fn find_last(s: &str, c: char, lo: usize) -> (r: Option<usize>)
    ensures
        match r {
            Some(j) => last_index_of(s@, c, lo as int) == Some(j as int),
            None => last_index_of(s@, c, lo as int) is None,
        },
{
    let n = s.unicode_len();
    if n <= lo {
        proof {
            lemma_last_index_of_props(s@, c, lo as int);
        }
        return None;
    }
    let mut i: usize = n;
    loop
        invariant
            lo < n,
            i <= n,
            lo <= i,
            n == s@.len(),
            forall|k: int| i <= k < n ==> s@[k] != c,
        decreases i,
    {
        if i == lo {
            proof {
                lemma_last_index_of_none(s@, c, lo as int);
            }
            return None;
        }
        i = i - 1;
        if s.get_char(i) == c {
            proof {
                lemma_last_index_of_some(s@, c, lo as int, i as int);
            }
            return Some(i);
        }
    }
}

/// Index of the '.' that separates a name's stem from its extension: the
/// last '.' that does not stand first. `None` when the name carries no
/// extension.
pub open spec fn dot_index(name: Seq<char>) -> Option<int> {
    last_index_of(name, '.', 1)
}

/// The name without its extension; the whole name when it has none.
pub open spec fn spec_file_stem(name: Seq<char>) -> Seq<char> {
    match dot_index(name) {
        Some(j) => name.subrange(0, j),
        None => name,
    }
}

/// The name's extension (what follows the separating '.'), when it has one.
pub open spec fn spec_extension(name: Seq<char>) -> Option<Seq<char>> {
    match dot_index(name) {
        Some(j) => Some(name.subrange(j + 1, name.len() as int)),
        None => None,
    }
}

/// The portion of a name before the last '.' (the whole name when it has no
/// extension).
pub fn file_stem(name: &str) -> (r: String)
    ensures
        r@ == spec_file_stem(name@),
{
    proof {
        lemma_last_index_of_props(name@, '.', 1);
    }
    match find_last(name, '.', 1) {
        Some(j) => name.substring_char(0, j).to_owned(),
        None => name.to_owned(),
    }
}

/// The extension of a name, when it has one.
pub fn extension_of(name: &str) -> (r: Option<String>)
    ensures
        match r {
            Some(e) => spec_extension(name@) == Some(e@),
            None => spec_extension(name@) is None,
        },
{
    proof {
        lemma_last_index_of_props(name@, '.', 1);
    }
    let n = name.unicode_len();
    match find_last(name, '.', 1) {
        Some(j) => Some(name.substring_char(j + 1, n).to_owned()),
        None => None,
    }
}

/// Character-wise string equality.
pub fn str_eq(a: &str, b: &str) -> (r: bool)
    ensures
        r == (a@ == b@),
{
    let na = a.unicode_len();
    let nb = b.unicode_len();
    if na != nb {
        return false;
    }
    let mut i: usize = 0;
    while i < na
        invariant
            i <= na,
            na == a@.len(),
            na == b@.len(),
            forall|k: int| 0 <= k < i ==> a@[k] == b@[k],
        decreases na - i,
    {
        if a.get_char(i) != b.get_char(i) {
            return false;
        }
        i = i + 1;
    }
    proof {
        assert(a@ =~= b@);
    }
    true
}

/// Whether a directory entry with this name is a folder carrying the given
/// extension: it must be a directory and its name's extension must equal
/// `extension`.
pub fn is_entry_folder_with_extension(name: &str, is_dir: bool, extension: &str) -> (r: bool)
    ensures
        r == (is_dir && spec_extension(name@) == Some(extension@)),
{
    if !is_dir {
        return false;
    }
    match extension_of(name) {
        Some(e) => str_eq(e.as_str(), extension),
        None => false,
    }
}

/// Whether `suffix` ends `s`.
pub open spec fn spec_ends_with(s: Seq<char>, suffix: Seq<char>) -> bool {
    s.len() >= suffix.len() && s.subrange(s.len() - suffix.len(), s.len() as int) == suffix
}

pub fn ends_with(s: &str, suffix: &str) -> (r: bool)
    ensures
        r == spec_ends_with(s@, suffix@),
{
    let n = s.unicode_len();
    let m = suffix.unicode_len();
    if n < m {
        return false;
    }
    let mut i: usize = 0;
    while i < m
        invariant
            i <= m,
            m <= n,
            n == s@.len(),
            m == suffix@.len(),
            forall|k: int| 0 <= k < i ==> s@[n - m + k] == suffix@[k],
        decreases m - i,
    {
        if s.get_char(n - m + i) != suffix.get_char(i) {
            proof {
                assert(s@.subrange(s@.len() - suffix@.len(), s@.len() as int)[i as int]
                    != suffix@[i as int]);
            }
            return false;
        }
        i = i + 1;
    }
    proof {
        assert(s@.subrange(s@.len() - suffix@.len(), s@.len() as int) =~= suffix@);
    }
    true
}

/// Appending one path component: an absolute `rel` replaces `base`; otherwise
/// `rel` is attached behind a single separator.
pub open spec fn spec_push(base: Seq<char>, rel: Seq<char>) -> Seq<char> {
    if rel.len() > 0 && rel[0] == '/' {
        rel
    } else if base.len() == 0 {
        rel
    } else if base[base.len() - 1] == '/' {
        base + rel
    } else {
        base + seq!['/'] + rel
    }
}

/// Attach `rel` behind `base` as a further path component.
pub fn path_push(base: &str, rel: &str) -> (r: String)
    ensures
        r@ == spec_push(base@, rel@),
{
    if rel.unicode_len() > 0 && rel.get_char(0) == '/' {
        return rel.to_owned();
    }
    if base.unicode_len() == 0 {
        return rel.to_owned();
    }
    if base.get_char(base.unicode_len() - 1) == '/' {
        return base.to_owned().concat(rel);
    }
    let mut s = base.to_owned();
    s.append("/");
    s.append(rel);
    proof {
        reveal_strlit("/");
        assert(s@ =~= spec_push(base@, rel@));
    }
    s
}

/// The path assembled from `parts` by pushing each part in turn onto an
/// empty path.
pub open spec fn spec_path_from_parts(parts: Seq<Seq<char>>) -> Seq<char>
    decreases parts.len(),
{
    if parts.len() == 0 {
        Seq::empty()
    } else {
        spec_push(spec_path_from_parts(parts.drop_last()), parts.last())
    }
}

/// Assemble a path from its parts, first part first.
pub fn path_from_iter(parts: &Vec<String>) -> (r: String)
    ensures
        r@ == spec_path_from_parts(parts.deep_view()),
{
    let mut acc = String::new();
    let mut i: usize = 0;
    while i < parts.len()
        invariant
            i <= parts@.len(),
            acc@ == spec_path_from_parts(parts.deep_view().subrange(0, i as int)),
        decreases parts@.len() - i,
    {
        acc = path_push(acc.as_str(), parts[i].as_str());
        proof {
            assert(parts.deep_view().subrange(0, i + 1).drop_last() =~= parts.deep_view()
                .subrange(0, i as int));
            assert(parts.deep_view().subrange(0, i + 1).last() == parts@[i as int]@);
        }
        i = i + 1;
    }
    proof {
        assert(parts.deep_view().subrange(0, parts.deep_view().len() as int) =~= parts.deep_view());
    }
    acc
}

/// The component after the last separator; the whole path when it has none.
pub open spec fn spec_last_component(p: Seq<char>) -> Seq<char> {
    match last_index_of(p, '/', 0) {
        Some(j) => p.subrange(j + 1, p.len() as int),
        None => p,
    }
}

/// Replacing a name's extension: the stem keeps, the new extension follows
/// a fresh '.'; a name without an extension just gains one.
pub open spec fn spec_with_extension(name: Seq<char>, ext: Seq<char>) -> Seq<char> {
    spec_file_stem(name) + seq!['.'] + ext
}

/// The name with its extension replaced by `ext`.
pub fn with_extension(name: &str, ext: &str) -> (r: String)
    ensures
        r@ == spec_with_extension(name@, ext@),
{
    let mut s = file_stem(name);
    s.append(".");
    s.append(ext);
    proof {
        reveal_strlit(".");
        assert(s@ =~= spec_with_extension(name@, ext@));
    }
    s
}

/// The active project's name, derived from what the well-known home
/// symlink points at: the stripped name of the target's last component.
/// `None` when there is no readable symlink target.
pub fn query_active_project(link_target: Option<String>) -> (r: Option<String>)
    ensures
        match link_target {
            Some(t) => r matches Some(n) && n@ == spec_file_stem(spec_last_component(t@)),
            None => r is None,
        },
{
    match link_target {
        Some(t) => {
            let c = last_component(t.as_str());
            Some(file_stem(c.as_str()))
        },
        None => None,
    }
}

/// Relies on dirs::config_dir: the platform's configuration root, if the
/// platform knows one.
#[verifier::external_body]
fn config_base_dir() -> (r: Option<String>) {
    dirs::config_dir().and_then(|p| p.to_str().map(|s| s.to_string()))
}

/// Relies on dirs::desktop_dir: the user's desktop directory, if any.
#[verifier::external_body]
fn desktop_dir_path() -> (r: Option<String>) {
    dirs::desktop_dir().and_then(|p| p.to_str().map(|s| s.to_string()))
}

/// Relies on dirs::download_dir: the user's download directory, if any.
#[verifier::external_body]
fn download_dir_path() -> (r: Option<String>) {
    dirs::download_dir().and_then(|p| p.to_str().map(|s| s.to_string()))
}

/// Relies on dirs::document_dir: the user's document directory, if any.
#[verifier::external_body]
fn document_dir_path() -> (r: Option<String>) {
    dirs::document_dir().and_then(|p| p.to_str().map(|s| s.to_string()))
}

/// Relies on dirs::picture_dir: the user's picture directory, if any.
#[verifier::external_body]
fn picture_dir_path() -> (r: Option<String>) {
    dirs::picture_dir().and_then(|p| p.to_str().map(|s| s.to_string()))
}

/// Relies on dirs::video_dir: the user's video directory, if any.
#[verifier::external_body]
fn video_dir_path() -> (r: Option<String>) {
    dirs::video_dir().and_then(|p| p.to_str().map(|s| s.to_string()))
}

/// Relies on dirs::audio_dir: the user's audio directory, if any.
#[verifier::external_body]
fn audio_dir_path() -> (r: Option<String>) {
    dirs::audio_dir().and_then(|p| p.to_str().map(|s| s.to_string()))
}

/// Pushing a relative component leaves it as the path's suffix.
proof fn lemma_push_ends_with(base: Seq<char>, rel: Seq<char>)
    requires
        rel.len() == 0 || rel[0] != '/',
    ensures
        spec_ends_with(spec_push(base, rel), rel),
{
    if rel.len() > 0 && rel[0] == '/' {
    } else if base.len() == 0 {
        assert(rel.subrange(rel.len() - rel.len(), rel.len() as int) =~= rel);
    } else if base[base.len() - 1] == '/' {
        let s = base + rel;
        assert(s.subrange(s.len() - rel.len(), s.len() as int) =~= rel);
    } else {
        let s = base + seq!['/'] + rel;
        assert(s.subrange(s.len() - rel.len(), s.len() as int) =~= rel);
    }
}

/// The tool's own configuration directory: the subdirectory `wechsel` of
/// the platform's configuration root, when the platform knows one.
pub fn get_config_dir() -> (r: Option<String>)
    ensures
        r matches Some(p) ==> spec_ends_with(p@, "wechsel"@),
{
    match config_base_dir() {
        Some(base) => {
            let p = path_push(base.as_str(), "wechsel");
            proof {
                reveal_strlit("wechsel");
                lemma_push_ends_with(base@, "wechsel"@);
            }
            Some(p)
        },
        None => None,
    }
}

/// Where a home-folder name stands in the fixed order initialization walks
/// them; past the end for any other name.
pub open spec fn home_folder_rank(n: Seq<char>) -> int {
    if n == "Desktop"@ {
        0
    } else if n == "Downloads"@ {
        1
    } else if n == "Documents"@ {
        2
    } else if n == "Pictures"@ {
        3
    } else if n == "Videos"@ {
        4
    } else if n == "Music"@ {
        5
    } else {
        6
    }
}

proof fn lemma_home_folder_names_distinct()
    ensures
        home_folder_rank("Desktop"@) == 0,
        home_folder_rank("Downloads"@) == 1,
        home_folder_rank("Documents"@) == 2,
        home_folder_rank("Pictures"@) == 3,
        home_folder_rank("Videos"@) == 4,
        home_folder_rank("Music"@) == 5,
{
    reveal_strlit("Desktop");
    reveal_strlit("Downloads");
    reveal_strlit("Documents");
    reveal_strlit("Pictures");
    reveal_strlit("Videos");
    reveal_strlit("Music");
    assert("Desktop"@.len() == 7);
    assert("Downloads"@.len() == 9);
    assert("Documents"@.len() == 9);
    assert("Pictures"@.len() == 8);
    assert("Videos"@.len() == 6);
    assert("Music"@.len() == 5);
    assert("Downloads"@[2] != "Documents"@[2]);
}

/// The user folders that exist on this machine, each as (name, path), in
/// the fixed name order: Desktop, Downloads, Documents, Pictures, Videos,
/// Music. Which of them appear — and where they point — is the platform's
/// answer, so only the names and their order are promised.
pub fn get_home_folder_paths() -> (r: Vec<(String, String)>)
    ensures
        r@.len() <= 6,
        forall|i: int| 0 <= i < r@.len() ==> home_folder_rank((#[trigger] r@[i]).0@) <= 5,
        forall|i: int, j: int|
            0 <= i < j < r@.len() ==> home_folder_rank(r@[i].0@) < home_folder_rank(r@[j].0@),
{
    proof {
        lemma_home_folder_names_distinct();
    }
    let mut r: Vec<(String, String)> = Vec::new();
    match desktop_dir_path() {
        Some(p) => r.push(("Desktop".to_owned(), p)),
        None => {},
    }
    match download_dir_path() {
        Some(p) => r.push(("Downloads".to_owned(), p)),
        None => {},
    }
    match document_dir_path() {
        Some(p) => r.push(("Documents".to_owned(), p)),
        None => {},
    }
    match picture_dir_path() {
        Some(p) => r.push(("Pictures".to_owned(), p)),
        None => {},
    }
    match video_dir_path() {
        Some(p) => r.push(("Videos".to_owned(), p)),
        None => {},
    }
    match audio_dir_path() {
        Some(p) => r.push(("Music".to_owned(), p)),
        None => {},
    }
    r
}

/// The component after the last '/' of a path.
pub fn last_component(p: &str) -> (r: String)
    ensures
        r@ == spec_last_component(p@),
{
    proof {
        lemma_last_index_of_props(p@, '/', 0);
    }
    let n = p.unicode_len();
    match find_last(p, '/', 0) {
        Some(j) => p.substring_char(j + 1, n).to_owned(),
        None => p.to_owned(),
    }
}

} // verus!
