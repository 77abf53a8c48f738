use vstd::prelude::*;

verus! {

/// Equality of two string slices (`<str as PartialEq>::eq`): the slices hold
/// the same characters.
#[verifier::external_body]
pub(crate) fn str_eq(a: &str, b: &str) -> (r: bool)
    ensures
        r == (a@ == b@),
{
    a == b
}

/// No two names of `names` are equal.
pub open spec fn distinct_names(names: Seq<Seq<char>>) -> bool {
    forall|i: int, j: int| 0 <= i < j < names.len() ==> names[i] != names[j]
}

/// The position of `name` in `names`, if it occurs there.
pub open spec fn name_position(names: Seq<Seq<char>>, name: Seq<char>) -> Option<int> {
    if exists|i: int| 0 <= i < names.len() && names[i] == name {
        Some(choose|i: int| 0 <= i < names.len() && names[i] == name)
    } else {
        None
    }
}

/// The characters of each string of `strings`.
pub open spec fn string_views(strings: Seq<String>) -> Seq<Seq<char>> {
    strings.map_values(|s: String| s@)
}

/// The characters of each string slice of `strings`.
pub open spec fn str_views(strings: Seq<&str>) -> Seq<Seq<char>> {
    strings.map_values(|s: &str| s@)
}

/// In a list without repeats, a name found at position `i` is at no other.
pub proof fn lemma_name_position_unique(names: Seq<Seq<char>>, i: int)
    requires
        distinct_names(names),
        0 <= i < names.len(),
    ensures
        name_position(names, names[i]) == Some(i),
{
    assert(exists|k: int| 0 <= k < names.len() && names[k] == names[i]);
    let k = choose|k: int| 0 <= k < names.len() && names[k] == names[i];
    if k != i {
        if k < i {
            assert(names[k] != names[i]);
        } else {
            assert(names[i] != names[k]);
        }
    }
}

/// Appending a name that does not occur keeps the list free of repeats, puts
/// the new name at the end and leaves every other name's position alone.
pub proof fn lemma_push_new_name(names: Seq<Seq<char>>, name: Seq<char>)
    requires
        distinct_names(names),
        name_position(names, name) is None,
    ensures
        distinct_names(names.push(name)),
        name_position(names.push(name), name) == Some(names.len() as int),
        forall|other: Seq<char>| other != name ==> name_position(names.push(name), other) == name_position(names, other),
{
    let pushed = names.push(name);
    assert forall|i: int, j: int| 0 <= i < j < pushed.len() implies pushed[i] != pushed[j] by {
        if j == names.len() {
            assert(pushed[i] == names[i]);
            assert(!(0 <= i < names.len() && names[i] == name));
        }
    }
    lemma_name_position_unique(pushed, names.len() as int);
    assert forall|other: Seq<char>| other != name implies name_position(pushed, other) == name_position(names, other) by {
        if exists|i: int| 0 <= i < names.len() && names[i] == other {
            let i = choose|i: int| 0 <= i < names.len() && names[i] == other;
            assert(pushed[i] == other);
            lemma_name_position_unique(names, i);
            lemma_name_position_unique(pushed, i);
        } else {
            assert forall|i: int| 0 <= i < pushed.len() implies pushed[i] != other by {
                if i < names.len() {
                    assert(pushed[i] == names[i]);
                }
            }
        }
    }
}

/// Finds `name` among `strings`.
pub(crate) fn find_name(strings: &Vec<String>, name: &str) -> (r: Option<usize>)
    requires
        distinct_names(string_views(strings@)),
    ensures
        match r {
            Some(i) => i < strings@.len() && name_position(string_views(strings@), name@) == Some(i as int),
            None => name_position(string_views(strings@), name@) is None,
        },
{
    let ghost names = string_views(strings@);
    let mut i: usize = 0;
    while i < strings.len()
        invariant
            i <= strings@.len(),
            names == string_views(strings@),
            distinct_names(names),
            forall|k: int| 0 <= k < i ==> names[k] != name@,
        decreases strings@.len() - i,
    {
        if str_eq(strings[i].as_str(), name) {
            proof {
                lemma_name_position_unique(names, i as int);
            }
            return Some(i);
        }
        i = i + 1;
    }
    None
}

} // verus!
