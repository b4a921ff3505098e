//! The extensions bundled with Lexed: which ones the embedded files hold,
//! which files make up each, and when an installed copy is replaced.
//!
//! The embedded files are named by paths of the form `<id>/<relative path>`.
//! Installation copies an extension's files into
//! `<data>/extensions/installed/<id>/`, staged next to it first.
use vstd::prelude::*;

use crate::text::{append_str, chars_of, push_char, str_equals};

verus! {

/// The characters before the first '/', if there is one.
pub open spec fn prefix_before_slash(path: Seq<char>) -> Option<Seq<char>> {
    if exists|k: int| 0 <= k < path.len() && #[trigger] path[k] == '/' {
        let k = choose|k: int|
            0 <= k < path.len() && #[trigger] path[k] == '/' && forall|j: int| 0 <= j < k ==> path[j] != '/';
        Some(path.subrange(0, k))
    } else {
        None
    }
}

/// The characters before the first '/' of `path`, when `k` is the index of
/// that first '/'.
pub open spec fn first_slash_at(path: Seq<char>, k: int) -> bool {
    0 <= k < path.len() && path[k] == '/' && forall|j: int| 0 <= j < k ==> path[j] != '/'
}

/// `a` orders before `b` as strings compare: by their characters' code
/// points from the first, a proper prefix first.
pub open spec fn text_less(a: Seq<char>, b: Seq<char>) -> bool
    decreases a.len(),
{
    if a.len() == 0 {
        b.len() > 0
    } else if b.len() == 0 {
        false
    } else if a[0] != b[0] {
        (a[0] as u32) < (b[0] as u32)
    } else {
        text_less(a.drop_first(), b.drop_first())
    }
}

/// Exactly one of `a < b`, `a == b`, `b < a` holds.
pub proof fn lemma_text_less_trichotomy(a: Seq<char>, b: Seq<char>)
    ensures
        text_less(a, b) || a == b || text_less(b, a),
        !(text_less(a, b) && text_less(b, a)),
        !(text_less(a, b) && a == b),
    decreases a.len(),
{
    if a.len() > 0 && b.len() > 0 && a[0] == b[0] {
        lemma_text_less_trichotomy(a.drop_first(), b.drop_first());
        if a.drop_first() == b.drop_first() {
            assert(a =~= seq![a[0]] + a.drop_first());
            assert(b =~= seq![b[0]] + b.drop_first());
        }
    } else if a.len() == 0 && b.len() == 0 {
        assert(a =~= b);
    } else if a.len() > 0 && b.len() > 0 {
        vstd::utf8::char_u32_cast(a[0], a[0] as u32);
        vstd::utf8::char_u32_cast(b[0], b[0] as u32);
    }
}

/// The order is transitive.
pub proof fn lemma_text_less_transitive(a: Seq<char>, b: Seq<char>, c: Seq<char>)
    requires
        text_less(a, b),
        text_less(b, c),
    ensures
        text_less(a, c),
    decreases a.len(),
{
    if a.len() > 0 && b.len() > 0 && c.len() > 0 && a[0] == b[0] && b[0] == c[0] {
        lemma_text_less_transitive(a.drop_first(), b.drop_first(), c.drop_first());
    }
}

/// Strictly increasing: sorted and without repeats.
pub open spec fn strictly_sorted(items: Seq<Seq<char>>) -> bool {
    forall|i: int, j: int| 0 <= i < j < items.len() ==> text_less(#[trigger] items[i], #[trigger] items[j])
}

/// The extension ids that the embedded paths name: the text before the
/// first '/' of each path that has one.
pub open spec fn named_ids(paths: Seq<Seq<char>>) -> Set<Seq<char>> {
    Set::new(|id: Seq<char>| exists|i: int| 0 <= i < paths.len() && prefix_before_slash(#[trigger] paths[i]) == Some(id))
}

/// The characters of each string.
pub open spec fn strings_view(strings: Seq<String>) -> Seq<Seq<char>> {
    strings.map_values(|s: String| s@)
}

/// Whether `a` orders before `b`.
fn chars_less(a: &Vec<char>, b: &Vec<char>) -> (less: bool)
    ensures
        less == text_less(a@, b@),
{
    let mut i: usize = 0;
    assert(a@.skip(0) =~= a@);
    assert(b@.skip(0) =~= b@);
    while i < a.len() && i < b.len() && a[i] == b[i]
        invariant
            i <= a@.len(),
            i <= b@.len(),
            text_less(a@, b@) == text_less(a@.skip(i as int), b@.skip(i as int)),
        decreases a@.len() - i,
    {
        assert(a@.skip(i as int).drop_first() =~= a@.skip(i as int + 1));
        assert(b@.skip(i as int).drop_first() =~= b@.skip(i as int + 1));
        i = i + 1;
    }
    if i == a.len() {
        i < b.len()
    } else if i == b.len() {
        false
    } else {
        (a[i] as u32) < (b[i] as u32)
    }
}

/// The text before the first '/' of a path, if it has one.
pub fn extension_id_of(path: &str) -> (id: Option<String>)
    ensures
        match id {
            Some(id) => exists|k: int| first_slash_at(path@, k) && id@ == path@.subrange(0, k),
            None => forall|k: int| 0 <= k < path@.len() ==> path@[k] != '/',
        },
        opt_view(id) == prefix_before_slash(path@),
{
    let chars = chars_of(path);
    let mut k: usize = 0;
    while k < chars.len() && chars[k] != '/'
        invariant
            k <= chars@.len(),
            chars@ == path@,
            forall|j: int| 0 <= j < k ==> chars@[j] != '/',
        decreases chars@.len() - k,
    {
        k = k + 1;
    }
    if k == chars.len() {
        return None;
    }
    let mut id = String::new();
    let mut i: usize = 0;
    while i < k
        invariant
            i <= k < chars@.len(),
            id@ == chars@.subrange(0, i as int),
        decreases k - i,
    {
        push_char(&mut id, chars[i]);
        assert(id@ =~= chars@.subrange(0, i as int + 1));
        i = i + 1;
    }
    proof {
        assert(first_slash_at(path@, k as int));
        let c = choose|c: int|
            0 <= c < path@.len() && #[trigger] path@[c] == '/' && forall|j: int| 0 <= j < c ==> path@[j] != '/';
        assert(c == k);
    }
    Some(id)
}

/// The characters of an optional string.
pub open spec fn opt_view(value: Option<String>) -> Option<Seq<char>> {
    match value {
        Some(s) => Some(s@),
        None => None,
    }
}

/// Adds `id` to a strictly sorted list unless it is there already.
fn insert_sorted(ids: &mut Vec<String>, id: String)
    requires
        strictly_sorted(strings_view(old(ids)@)),
    ensures
        strictly_sorted(strings_view(final(ids)@)),
        strings_view(final(ids)@).to_set() == strings_view(old(ids)@).to_set().insert(id@),
{
    let ghost before = strings_view(ids@);
    let key = chars_of(id.as_str());
    let mut p: usize = 0;
    while p < ids.len() && chars_less(&chars_of(ids[p].as_str()), &key)
        invariant
            p <= ids@.len(),
            key@ == id@,
            before == strings_view(ids@),
            forall|i: int| 0 <= i < p ==> text_less(#[trigger] ids@[i]@, id@),
        decreases ids@.len() - p,
    {
        p = p + 1;
    }
    if p < ids.len() && str_equals(ids[p].as_str(), id.as_str()) {
        assert(before.to_set().insert(id@) =~= before.to_set()) by {
            assert(before[p as int] == id@);
        }
        return;
    }
    proof {
        if p < ids@.len() {
            lemma_text_less_trichotomy(ids@[p as int]@, id@);
        }
    }
    ids.insert(p, id);
    let ghost after = strings_view(ids@);
    assert(after =~= before.insert(p as int, id@));
    assert forall|i: int, j: int| 0 <= i < j < after.len() implies text_less(#[trigger] after[i], #[trigger] after[j]) by {
        if j > p {
            if j - 1 > p {
                lemma_text_less_transitive(id@, before[p as int], before[j - 1]);
            }
            if i < p {
                lemma_text_less_transitive(before[i], id@, before[j - 1]);
            }
        }
    }
    assert(after.to_set() =~= before.to_set().insert(id@)) by {
        assert forall|x: Seq<char>| after.to_set().contains(x) implies before.to_set().insert(id@).contains(x) by {
            let i = choose|i: int| 0 <= i < after.len() && after[i] == x;
            if i < p {
                assert(before[i] == x);
            } else if i > p {
                assert(before[i - 1] == x);
            }
        }
        assert forall|x: Seq<char>| before.to_set().insert(id@).contains(x) implies after.to_set().contains(x) by {
            if x == id@ {
                assert(after[p as int] == x);
            } else {
                let i = choose|i: int| 0 <= i < before.len() && before[i] == x;
                if i < p {
                    assert(after[i] == x);
                } else {
                    assert(after[i + 1] == x);
                }
            }
        }
    }
}

/// The ids of the bundled extensions: the distinct texts before the first
/// '/' of the embedded paths, in ascending order.
pub fn bundled_extension_ids(paths: &Vec<String>) -> (ids: Vec<String>)
    ensures
        strictly_sorted(strings_view(ids@)),
        strings_view(ids@).to_set() == named_ids(strings_view(paths@)),
{
    let mut ids: Vec<String> = Vec::new();
    let ghost all = strings_view(paths@);
    let mut i: usize = 0;
    while i < paths.len()
        invariant
            i <= paths@.len(),
            all == strings_view(paths@),
            strictly_sorted(strings_view(ids@)),
            strings_view(ids@).to_set() == named_ids(all.subrange(0, i as int)),
        decreases paths@.len() - i,
    {
        let ghost before = strings_view(ids@).to_set();
        let found = extension_id_of(paths[i].as_str());
        match found {
            Some(id) => {
                let ghost id_chars = id@;
                insert_sorted(&mut ids, id);
                assert(named_ids(all.subrange(0, i as int + 1)) =~= named_ids(all.subrange(0, i as int)).insert(id_chars)) by {
                    assert forall|x: Seq<char>| named_ids(all.subrange(0, i as int + 1)).contains(x) implies named_ids(all.subrange(0, i as int)).insert(id_chars).contains(x) by {
                        let j = choose|j: int| 0 <= j < i + 1 && prefix_before_slash(#[trigger] all.subrange(0, i as int + 1)[j]) == Some(x);
                        if j < i {
                            assert(all.subrange(0, i as int)[j] == all.subrange(0, i as int + 1)[j]);
                        }
                    }
                    assert forall|x: Seq<char>| named_ids(all.subrange(0, i as int)).insert(id_chars).contains(x) implies named_ids(all.subrange(0, i as int + 1)).contains(x) by {
                        if x == id_chars {
                            assert(prefix_before_slash(all.subrange(0, i as int + 1)[i as int]) == Some(x));
                        } else {
                            let j = choose|j: int| 0 <= j < i && prefix_before_slash(#[trigger] all.subrange(0, i as int)[j]) == Some(x);
                            assert(all.subrange(0, i as int)[j] == all.subrange(0, i as int + 1)[j]);
                        }
                    }
                }
            },
            None => {
                assert(named_ids(all.subrange(0, i as int + 1)) =~= named_ids(all.subrange(0, i as int))) by {
                    assert forall|x: Seq<char>| named_ids(all.subrange(0, i as int + 1)).contains(x) implies named_ids(all.subrange(0, i as int)).contains(x) by {
                        let j = choose|j: int| 0 <= j < i + 1 && prefix_before_slash(#[trigger] all.subrange(0, i as int + 1)[j]) == Some(x);
                        assert(j != i);
                        assert(all.subrange(0, i as int)[j] == all.subrange(0, i as int + 1)[j]);
                    }
                    assert forall|x: Seq<char>| named_ids(all.subrange(0, i as int)).contains(x) implies named_ids(all.subrange(0, i as int + 1)).contains(x) by {
                        let j = choose|j: int| 0 <= j < i && prefix_before_slash(#[trigger] all.subrange(0, i as int)[j]) == Some(x);
                        assert(all.subrange(0, i as int)[j] == all.subrange(0, i as int + 1)[j]);
                    }
                }
            },
        }
        i = i + 1;
    }
    assert(all.subrange(0, paths@.len() as int) =~= all);
    ids
}

/// What installing a bundled extension does.
#[derive(Debug, Clone, Copy, PartialEq, Eq, Structural)]
pub enum InstallDecision {
    /// The destination is a symlink to a locally installed dev extension,
    /// which is never clobbered.
    KeepDevExtension,
    /// The installed copy has the bundled version already.
    UpToDate,
    /// The bundled files replace whatever is installed.
    Install,
}

/// Whether the bundled extension is installed: never over a dev
/// extension's symlink, not again when the installed manifest has the
/// bundled version, and otherwise yes.
pub fn install_decision(destination_is_symlink: bool, bundled_version: &str, installed_version: Option<&str>) -> (decision: InstallDecision)
    ensures
        decision == (if destination_is_symlink {
            InstallDecision::KeepDevExtension
        } else if installed_version matches Some(v) && v@ == bundled_version@ {
            InstallDecision::UpToDate
        } else {
            InstallDecision::Install
        }),
{
    if destination_is_symlink {
        return InstallDecision::KeepDevExtension;
    }
    match installed_version {
        Some(version) => {
            if str_equals(version, bundled_version) {
                InstallDecision::UpToDate
            } else {
                InstallDecision::Install
            }
        },
        None => InstallDecision::Install,
    }
}

/// The embedded path starts with "`<id>/`".
pub open spec fn path_is_in_extension(path: Seq<char>, extension_id: Seq<char>) -> bool {
    path.len() >= extension_id.len() + 1 && path.subrange(0, extension_id.len() as int + 1) == extension_id.push('/')
}

/// The path of a bundled file inside its extension: the embedded path
/// without the leading "`<id>/`", or `None` for a file of another
/// extension.
pub fn relative_path_in_extension(path: &str, extension_id: &str) -> (relative: Option<String>)
    ensures
        relative is Some <==> path_is_in_extension(path@, extension_id@),
        relative matches Some(r) ==> path@ == extension_id@.push('/') + r@,
{
    let chars = chars_of(path);
    let id = chars_of(extension_id);
    let n = id.len();
    if chars.len() <= n {
        return None;
    }
    let mut i: usize = 0;
    while i < n
        invariant
            i <= n,
            n == id@.len(),
            n + 1 <= chars@.len(),
            chars@ == path@,
            id@ == extension_id@,
            forall|j: int| 0 <= j < i ==> chars@[j] == id@[j],
        decreases n - i,
    {
        if chars[i] != id[i] {
            assert(extension_id@.push('/')[i as int] != path@.subrange(0, n as int + 1)[i as int]);
            return None;
        }
        i = i + 1;
    }
    if chars[n] != '/' {
        assert(extension_id@.push('/')[n as int] != path@.subrange(0, n as int + 1)[n as int]);
        return None;
    }
    let mut relative = String::new();
    let mut k: usize = n + 1;
    while k < chars.len()
        invariant
            n + 1 <= k <= chars@.len(),
            relative@ == chars@.subrange(n + 1, k as int),
        decreases chars@.len() - k,
    {
        push_char(&mut relative, chars[k]);
        assert(relative@ =~= chars@.subrange(n + 1, k as int + 1));
        k = k + 1;
    }
    assert(path@ =~= extension_id@.push('/') + relative@);
    assert(path@.subrange(0, n as int + 1) =~= extension_id@.push('/'));
    Some(relative)
}

/// The embedded path of an extension's manifest: "`<id>/extension.toml`".
pub fn manifest_path(extension_id: &str) -> (path: String)
    ensures
        path@ == extension_id@ + "/extension.toml"@,
{
    let mut path = String::from_str(extension_id);
    append_str(&mut path, "/extension.toml");
    path
}

/// The name of the staging directory next to the destination:
/// "`.<id>.lexed-staging`".
pub fn staging_dir_name(extension_id: &str) -> (name: String)
    ensures
        name@ == "."@ + extension_id@ + ".lexed-staging"@,
{
    let mut name = String::from_str(".");
    append_str(&mut name, extension_id);
    append_str(&mut name, ".lexed-staging");
    name
}


/// Every file that installing an extension copies belongs to an extension
/// that the bundled ids list: a path starting with "`<id>/`" names `id`,
/// for an id without '/'.
pub proof fn lemma_extension_files_are_listed(paths: Seq<Seq<char>>, i: int, id: Seq<char>)
    requires
        0 <= i < paths.len(),
        path_is_in_extension(paths[i], id),
        forall|j: int| 0 <= j < id.len() ==> #[trigger] id[j] != '/',
    ensures
        named_ids(paths).contains(id),
{
    let path = paths[i];
    assert(path[id.len() as int] == id.push('/')[id.len() as int]);
    assert forall|j: int| 0 <= j < id.len() implies path[j] != '/' by {
        assert(path[j] == path.subrange(0, id.len() as int + 1)[j]);
        assert(id.push('/')[j] == id[j]);
    }
    assert(first_slash_at(path, id.len() as int));
    let k = choose|k: int|
        0 <= k < path.len() && #[trigger] path[k] == '/' && forall|j: int| 0 <= j < k ==> path[j] != '/';
    assert(k == id.len());
    assert(path.subrange(0, k) =~= id) by {
        assert forall|j: int| 0 <= j < k implies path.subrange(0, k)[j] == id[j] by {
            assert(path[j] == path.subrange(0, id.len() as int + 1)[j]);
        }
    }
    assert(prefix_before_slash(paths[i]) == Some(id));
}

/// An extension's manifest is one of its files, at "extension.toml"
/// inside it.
pub proof fn lemma_manifest_is_in_extension(id: Seq<char>)
    ensures
        path_is_in_extension(id + "/extension.toml"@, id),
        id + "/extension.toml"@ == id.push('/') + "extension.toml"@,
{
    reveal_strlit("/extension.toml");
    reveal_strlit("extension.toml");
    let path = id + "/extension.toml"@;
    assert(path =~= id.push('/') + "extension.toml"@);
    assert(path.subrange(0, id.len() as int + 1) =~= id.push('/'));
}

} // verus!
