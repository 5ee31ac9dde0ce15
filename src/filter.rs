use vstd::prelude::*;

verus! {

/// Position of the last '.' among the first `n` characters of `name`, or -1.
pub open spec fn last_dot(name: Seq<char>, n: int) -> int
    decreases n,
{
    if n <= 0 {
        -1
    } else if name[n - 1] == '.' {
        n - 1
    } else {
        last_dot(name, n - 1)
    }
}

/// The extension of a file name: what follows its last '.', unless that dot
/// is the name's first character or there is none.
pub open spec fn extension_of(name: Seq<char>) -> Option<Seq<char>> {
    let d = last_dot(name, name.len() as int);
    if d > 0 {
        Some(name.subrange(d + 1, name.len() as int))
    } else {
        None
    }
}

/// Whether a file named `name` is scanned: every file when the allow-list
/// is empty, else a file whose extension is on it.
pub open spec fn allowed_by(name: Seq<char>, allowed: Seq<Seq<char>>) -> bool {
    allowed.len() == 0 || match extension_of(name) {
        Some(e) => allowed.contains(e),
        None => false,
    }
}

/// Whether the file with name `file_name` (its last path component) is to
/// be scanned under the extension allow-list `allowed`.
pub fn extension_allowed(file_name: &str, allowed: &Vec<String>) -> (r: bool)
    ensures
        r == allowed_by(file_name@, allowed.deep_view()),
{
    if allowed.len() == 0 {
        return true;
    }
    let n = file_name.unicode_len();
    let mut d: usize = n;
    let mut found = false;
    while d > 0 && !found
        invariant
            d <= n,
            n == file_name@.len(),
            !found ==> last_dot(file_name@, n as int) == last_dot(file_name@, d as int),
            found ==> d < n && file_name@[d as int] == '.' && last_dot(file_name@, n as int)
                == d,
        decreases d + if found { 0int } else { 1int },
    {
        if file_name.get_char(d - 1) == '.' {
            d = d - 1;
            found = true;
        } else {
            d = d - 1;
        }
    }
    if !found || d == 0 {
        return false;
    }
    let ext = file_name.substring_char(d + 1, n);
    let ghost views = allowed.deep_view();
    assert(extension_of(file_name@) == Some(ext@));
    let mut i: usize = 0;
    while i < allowed.len()
        invariant
            i <= allowed@.len(),
            views == allowed.deep_view(),
            extension_of(file_name@) == Some(ext@),
            forall|k: int| 0 <= k < i ==> views[k] != ext@,
        decreases allowed@.len() - i,
    {
        if allowed[i].as_str().unicode_len() == ext.unicode_len() && same_text(
            allowed[i].as_str(),
            ext,
        ) {
            assert(views[i as int] == ext@);
            assert(views.contains(ext@));
            return true;
        }
        i = i + 1;
    }
    false
}

/// Whether two strings hold the same characters.
fn same_text(a: &str, b: &str) -> (r: bool)
    ensures
        r == (a@ == b@),
{
    let n = a.unicode_len();
    if n != b.unicode_len() {
        return false;
    }
    let mut i: usize = 0;
    while i < n
        invariant
            i <= n,
            n == a@.len(),
            n == b@.len(),
            forall|k: int| 0 <= k < i ==> a@[k] == b@[k],
        decreases n - i,
    {
        if a.get_char(i) != b.get_char(i) {
            return false;
        }
        i = i + 1;
    }
    assert(a@ =~= b@);
    true
}

} // verus!
