//! File names: where a name splits into stem and extension, and the C
//! identifier that a name gives.

use vstd::prelude::*;
use crate::strings::{chars_of, push_chars};

verus! {

/// The index of the last `.` in `name`, or `-1` where it has none.
pub open spec fn last_dot(name: Seq<char>) -> int
    decreases name.len(),
{
    if name.len() == 0 {
        -1
    } else if name.last() == '.' {
        name.len() - 1
    } else {
        last_dot(name.drop_last())
    }
}

/// Whether `name` splits at its last `.`: it does unless it has no `.`, its
/// only `.` comes first (a hidden file), or it is `..`.
pub open spec fn has_extension(name: Seq<char>) -> bool {
    last_dot(name) > 0 && name != seq!['.', '.']
}

/// The name without its extension: what stands before the last `.`, or the
/// whole name where it does not split.
pub open spec fn file_stem(name: Seq<char>) -> Seq<char> {
    if has_extension(name) {
        name.take(last_dot(name))
    } else {
        name
    }
}

/// What follows the last `.`, where the name splits.
pub open spec fn extension(name: Seq<char>) -> Option<Seq<char>> {
    if has_extension(name) {
        Some(name.skip(last_dot(name) + 1))
    } else {
        None
    }
}

/// `s` with every `-` turned into `_`.
pub open spec fn underscored(s: Seq<char>) -> Seq<char> {
    Seq::new(
        s.len(),
        |i: int|
            if s[i] == '-' {
                '_'
            } else {
                s[i]
            },
    )
}

/// The C identifier of an entry named `name`: its stem, with every `-` turned
/// into `_`. Nothing else is changed.
pub open spec fn identifier(name: Seq<char>) -> Seq<char> {
    underscored(file_stem(name))
}

/// `last_dot` is the position of a `.` that no other `.` follows, and `-1`
/// exactly where the name holds none.
pub proof fn lemma_last_dot(name: Seq<char>)
    ensures
        -1 <= last_dot(name) < name.len(),
        last_dot(name) >= 0 ==> name[last_dot(name)] == '.',
        forall|j: int| last_dot(name) < j < name.len() ==> name[j] != '.',
    decreases name.len(),
{
    if name.len() > 0 && name.last() != '.' {
        let front = name.drop_last();
        lemma_last_dot(front);
        assert forall|j: int| last_dot(name) < j < name.len() implies name[j] != '.' by {
            if j < front.len() {
                assert(front[j] == name[j]);
            }
        }
    }
}

/// The position that `last_dot` describes is the only one of its kind.
pub proof fn lemma_last_dot_unique(name: Seq<char>, i: int)
    requires
        -1 <= i < name.len(),
        i >= 0 ==> name[i] == '.',
        forall|j: int| i < j < name.len() ==> name[j] != '.',
    ensures
        last_dot(name) == i,
{
    lemma_last_dot(name);
}

/// An identifier holds no `-`, and a name without `-` keeps its stem as it
/// is: where such a name does not split, the identifier is the name itself.
pub proof fn lemma_identifier(name: Seq<char>)
    ensures
        identifier(name).len() == file_stem(name).len(),
        !identifier(name).contains('-'),
        !name.contains('-') ==> identifier(name) == file_stem(name),
        !name.contains('-') && !has_extension(name) ==> identifier(name) == name,
{
    if !name.contains('-') {
        lemma_last_dot(name);
    }
}

/// Finds the last `.` among the characters of a name.
fn find_last_dot(name: &[char]) -> (r: Option<usize>)
    ensures
        match r {
            Some(i) => last_dot(name@) == i,
            None => last_dot(name@) == -1,
        },
{
    let mut i: usize = name.len();
    while i > 0
        invariant
            i <= name@.len(),
            forall|j: int| i <= j < name@.len() ==> name@[j] != '.',
        decreases i,
    {
        i -= 1;
        if name[i] == '.' {
            proof {
                lemma_last_dot_unique(name@, i as int);
            }
            return Some(i);
        }
    }
    proof {
        lemma_last_dot_unique(name@, -1);
    }
    None
}

/// Where `name` splits into stem and extension: the place of its last `.`,
/// if it splits at all.
pub(crate) fn split_point(name: &[char]) -> (r: Option<usize>)
    ensures
        match r {
            Some(i) => has_extension(name@) && last_dot(name@) == i && i < name.len(),
            None => !has_extension(name@),
        },
{
    proof {
        lemma_last_dot(name@);
    }
    match find_last_dot(name) {
        Some(i) => {
            if i == 0 {
                None
            } else if name.len() == 2 && name[0] == '.' {
                assert(name@ == seq!['.', '.']);
                None
            } else {
                assert(name@ != seq!['.', '.']);
                Some(i)
            }
        },
        None => None,
    }
}

/// The number of leading characters of `name` that make up its stem.
fn stem_len(name: &[char]) -> (n: usize)
    ensures
        n <= name@.len(),
        file_stem(name@) == name@.take(n as int),
{
    match split_point(name) {
        Some(i) => i,
        None => name.len(),
    }
}

/// The stem of the name `name`.
pub fn file_stem_of(name: &str) -> (stem: String)
    ensures
        stem@ == file_stem(name@),
{
    let chars = chars_of(name);
    let n = stem_len(chars.as_slice());
    let mut stem = String::new();
    push_chars(&mut stem, chars.as_slice(), 0, n);
    stem
}

/// The C identifier of the entry named `name`.
pub fn identifier_of(name: &str) -> (id: String)
    ensures
        id@ == identifier(name@),
{
    let chars = chars_of(name);
    let n = stem_len(chars.as_slice());
    let mut id = String::new();
    let mut i: usize = 0;
    while i < n
        invariant
            i <= n <= chars@.len(),
            file_stem(name@) == chars@.take(n as int),
            id@ == underscored(chars@.take(n as int)).take(i as int),
        decreases n - i,
    {
        let c = chars[i];
        if c == '-' {
            id.push('_');
        } else {
            id.push(c);
        }
        i += 1;
    }
    id
}

} // verus!
