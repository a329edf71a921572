//! The extension of a file name.

use vstd::prelude::*;
use vstd::string::*;
use crate::text::{lowercase, to_lowercase};

verus! {

/// The position of the last `.` in `s`, or -1 where `s` holds none.
pub open spec fn last_dot(s: Seq<char>) -> int
    decreases s.len(),
{
    if s.len() == 0 {
        -1
    } else if s.last() == '.' {
        s.len() - 1
    } else {
        last_dot(s.drop_last())
    }
}

/// `last_dot(s)` is a position of `s` that holds a `.` with none after it, or
/// it is -1 and `s` holds no `.` at all.
pub proof fn lemma_last_dot(s: Seq<char>)
    ensures
        -1 <= last_dot(s) < s.len(),
        last_dot(s) >= 0 ==> s[last_dot(s)] == '.',
        forall|j: int| last_dot(s) < j < s.len() ==> s[j] != '.',
    decreases s.len(),
{
    if s.len() > 0 && s.last() != '.' {
        let t = s.drop_last();
        lemma_last_dot(t);
        assert forall|j: int| last_dot(s) < j < s.len() implies s[j] != '.' by {
            if j < t.len() {
                assert(t[j] == s[j]);
            }
        }
    }
}

/// The extension of the file name `name`: what follows its last `.`, unless
/// that `.` is the name's first character or the name has none; then the
/// extension is empty.
pub open spec fn extension(name: Seq<char>) -> Seq<char> {
    let d = last_dot(name);
    if d > 0 {
        name.subrange(d + 1, name.len() as int)
    } else {
        Seq::empty()
    }
}

/// The extension by which a file is categorized: `extension(name)` in lower
/// case.
pub open spec fn normalized_extension(name: Seq<char>) -> Seq<char> {
    lowercase(extension(name))
}

/// A name made of a non-empty stem, a `.` and a dot-free `ext` has `ext` as
/// its extension.
pub proof fn lemma_extension_of_dotted(stem: Seq<char>, ext: Seq<char>)
    requires
        stem.len() > 0,
        forall|j: int| 0 <= j < ext.len() ==> ext[j] != '.',
    ensures
        extension(stem + seq!['.'] + ext) == ext,
{
    let name = stem + seq!['.'] + ext;
    lemma_last_dot(name);
    let d = last_dot(name);
    let k = stem.len() as int;
    assert(name[k] == '.');
    assert(forall|j: int| k < j < name.len() ==> name[j] == ext[j - k - 1]);
    assert(d == k);
    assert(name.subrange(k + 1, name.len() as int) =~= ext);
}

/// A name without a `.` after its first character has an empty extension.
pub proof fn lemma_extension_without_dot(name: Seq<char>)
    requires
        forall|j: int| 0 < j < name.len() ==> name[j] != '.',
    ensures
        extension(name) == Seq::<char>::empty(),
{
    lemma_last_dot(name);
}

/// Returns the extension of a file name, as it is written.
pub fn extension_of(name: &str) -> (r: String)
    ensures
        r@ == extension(name@),
{
    let len = name.unicode_len();
    let mut i: usize = len;
    proof {
        lemma_last_dot(name@);
    }
    while i > 1
        invariant
            len == name@.len(),
            i <= len,
            forall|j: int| i <= j < len ==> name@[j] != '.',
        decreases i,
    {
        if name.get_char(i - 1) == '.' {
            proof {
                lemma_last_dot(name@);
            }
            assert(last_dot(name@) == i - 1);
            return String::from_str(name.substring_char(i, len));
        }
        i = i - 1;
    }
    proof {
        lemma_last_dot(name@);
    }
    assert(last_dot(name@) <= 0);
    String::new()
}

/// Returns the extension of a file name in lower case.
pub fn normalized_extension_of(name: &str) -> (r: String)
    ensures
        r@ == normalized_extension(name@),
{
    let ext = extension_of(name);
    to_lowercase(ext.as_str())
}

} // verus!
