//! The project catalogue: the names of a directory's entries, in order.

use vstd::prelude::*;
use vstd::relations::{sorted_by, total_ordering};
use crate::text::{
    lex_le, lex_le_antisymmetric, lex_le_reflexive, lex_le_total, lex_le_transitive, str_le, texts,
};

verus! {

/// One entry of a directory, as the caller found it.
#[derive(Debug)]
pub enum Entry {
    /// The entry's name, which could be read as text.
    Name(String),
    /// An entry that could not be read, or whose name is not text.
    Invalid,
}

/// What came of reading the project directory.
#[derive(Debug)]
pub enum Directory {
    /// The directory could not be opened or walked.
    Unreadable,
    /// The entries, in the order in which the file system gave them.
    Entries(Vec<Entry>),
}

/// Each name stands before or at every name that follows it.
pub open spec fn ascending(names: Seq<Seq<char>>) -> bool {
    forall|i: int, j: int| 0 <= i < j < names.len() ==> lex_le(#[trigger] names[i], #[trigger] names[j])
}

/// The names among `entries`, in the order of the entries; an entry without a
/// name leaves no trace.
pub open spec fn decodable_names(entries: Seq<Entry>) -> Seq<Seq<char>>
    decreases entries.len(),
{
    if entries.len() == 0 {
        Seq::empty()
    } else {
        let before = decodable_names(entries.drop_last());
        match entries.last() {
            Entry::Name(name) => before.push(name@),
            Entry::Invalid => before,
        }
    }
}

/// A text is among the names exactly when some entry bears it as its name.
pub proof fn names_are_those_of_entries(entries: Seq<Entry>, text: Seq<char>)
    ensures
        decodable_names(entries).contains(text) <==> exists|i: int|
            0 <= i < entries.len() && #[trigger] entries[i] is Name && entries[i]->Name_0@ == text,
    decreases entries.len(),
{
    if entries.len() > 0 {
        let before = entries.drop_last();
        let found = decodable_names(before);
        names_are_those_of_entries(before, text);
        let last = entries.len() - 1;
        if decodable_names(entries).contains(text) {
            let at = choose|at: int|
                0 <= at < decodable_names(entries).len() && decodable_names(entries)[at] == text;
            if at < found.len() {
                assert(found[at] == text);
                let i = choose|i: int|
                    0 <= i < before.len() && #[trigger] before[i] is Name && before[i]->Name_0@
                        == text;
                assert(entries[i] == before[i]);
            } else {
                assert(entries[last] is Name && entries[last]->Name_0@ == text);
            }
        }
        if exists|i: int|
            0 <= i < entries.len() && #[trigger] entries[i] is Name && entries[i]->Name_0@ == text {
            let i = choose|i: int|
                0 <= i < entries.len() && #[trigger] entries[i] is Name && entries[i]->Name_0@
                    == text;
            if i < last {
                assert(before[i] == entries[i]);
                let at = choose|at: int| 0 <= at < found.len() && found[at] == text;
                assert(decodable_names(entries)[at] == text);
            } else {
                assert(decodable_names(entries)[found.len() as int] == text);
            }
        }
    }
}

/// The names that a directory offers, before they are put in order. A
/// directory that could not be read offers none.
pub open spec fn offered(dir: Directory) -> Seq<Seq<char>> {
    match dir {
        Directory::Unreadable => Seq::empty(),
        Directory::Entries(entries) => decodable_names(entries@),
    }
}

/// Puts one more name into a list that was in order, and keeps all the others.
proof fn insert_keeps_order(sorted: Seq<Seq<char>>, at: int, name: Seq<char>)
    requires
        ascending(sorted),
        0 <= at <= sorted.len(),
        forall|k: int| 0 <= k < at ==> lex_le(#[trigger] sorted[k], name),
        forall|k: int| at <= k < sorted.len() ==> lex_le(name, #[trigger] sorted[k]),
    ensures
        ascending(sorted.insert(at, name)),
{
    let grown = sorted.insert(at, name);
    assert forall|i: int, j: int| 0 <= i < j < grown.len() implies lex_le(
        #[trigger] grown[i],
        #[trigger] grown[j],
    ) by {
        if i < at && j > at {
            assert(grown[i] == sorted[i]);
            assert(grown[j] == sorted[j - 1]);
        }
    }
}

/// Taking a name out at one place and putting it back at another changes no
/// count.
proof fn move_keeps_names(before: Seq<Seq<char>>, from: int, to: int)
    requires
        0 <= from < before.len(),
        0 <= to < before.len(),
    ensures
        before.remove(from).insert(to, before[from]).to_multiset() == before.to_multiset(),
{
    broadcast use vstd::seq_lib::group_to_multiset_ensures;

    let name = before[from];
    let without = before.remove(from);
    let after = without.insert(to, name);
    assert(after.remove(to) =~= without);
    assert(after[to] == name);
    vstd::seq_lib::to_multiset_remove(before, from);
    vstd::seq_lib::to_multiset_remove(after, to);
    assert(before.contains(name));
    assert(after.contains(name));
    assert(after.to_multiset() =~= before.to_multiset());
}

/// A list of names has one ascending arrangement only: two ascending lists in
/// which every name occurs equally often are the same list. So the order and
/// the counts that [`projects`] promises leave no choice about what it returns.
pub proof fn ascending_is_unique(first: Seq<Seq<char>>, second: Seq<Seq<char>>)
    requires
        ascending(first),
        ascending(second),
        first.to_multiset() == second.to_multiset(),
    ensures
        first == second,
{
    let le = |a: Seq<char>, b: Seq<char>| lex_le(a, b);
    assert(total_ordering(le)) by {
        assert forall|a: Seq<char>| #[trigger] le(a, a) by {
            lex_le_reflexive(a);
        }
        assert forall|a: Seq<char>, b: Seq<char>| #[trigger] le(a, b) && #[trigger] le(b, a) implies a
            == b by {
            lex_le_antisymmetric(a, b);
        }
        assert forall|a: Seq<char>, b: Seq<char>, c: Seq<char>| #[trigger] le(a, b) && #[trigger] le(
            b,
            c,
        ) implies le(a, c) by {
            lex_le_transitive(a, b, c);
        }
        assert forall|a: Seq<char>, b: Seq<char>| #[trigger] le(a, b) || #[trigger] le(b, a) by {
            lex_le_total(a, b);
        }
    }
    assert(sorted_by(first, le));
    assert(sorted_by(second, le));
    vstd::seq_lib::lemma_sorted_unique(first, second, le);
}

/// Sorts names in place, ascending by code point. No name is lost and none is
/// added: each occurs as often as before.
pub fn sort_names(names: &mut Vec<String>)
    ensures
        ascending(texts(final(names)@)),
        texts(final(names)@).to_multiset() == texts(old(names)@).to_multiset(),
{
    let n: usize = names.len();
    let mut i: usize = 0;
    while i < n
        invariant
            i <= n,
            names@.len() == n,
            ascending(texts(names@).take(i as int)),
            texts(names@).to_multiset() == texts(old(names)@).to_multiset(),
        decreases n - i,
    {
        let ghost before = texts(names@);
        let name: String = names.remove(i);
        assert(texts(names@) =~= before.remove(i as int));
        let mut at: usize = i;
        while at > 0 && !str_le(names[at - 1].as_str(), name.as_str())
            invariant
                at <= i,
                i < n,
                names@.len() == n - 1,
                before.len() == n,
                texts(names@) == before.remove(i as int),
                forall|k: int| at <= k < i ==> lex_le(name@, #[trigger] before[k]),
            decreases at,
        {
            proof {
                assert(texts(names@)[at - 1] == names@[at - 1]@);
                lex_le_total(before[at - 1], name@);
            }
            at -= 1;
        }
        names.insert(at, name);
        proof {
            let head = before.take(i as int);
            assert(texts(names@) =~= before.remove(i as int).insert(at as int, before[i as int]));
            assert forall|k: int| 0 <= k < at implies lex_le(#[trigger] head[k], name@) by {
                if k < at - 1 {
                    assert(lex_le(head[k], head[at - 1]));
                    lex_le_transitive(head[k], head[at - 1], name@);
                }
            }
            insert_keeps_order(head, at as int, name@);
            assert(texts(names@).take(i + 1) =~= head.insert(at as int, name@));
            move_keeps_names(before, i as int, at as int);
        }
        i += 1;
    }
    proof {
        assert(texts(names@).take(n as int) =~= texts(names@));
    }
}

/// The project list: the names that the directory offers, ascending by code
/// point. A name that occurs twice is listed twice. Entries without a name
/// are passed over, and a directory that could not be read gives an empty
/// list.
pub fn projects(dir: Directory) -> (names: Vec<String>)
    ensures
        ascending(texts(names@)),
        texts(names@).to_multiset() == offered(dir).to_multiset(),
        dir is Unreadable ==> names@.len() == 0,
{
    let mut names: Vec<String> = Vec::new();
    let ghost wanted = offered(dir);
    match dir {
        Directory::Unreadable => {},
        Directory::Entries(entries) => {
            let n: usize = entries.len();
            let mut i: usize = 0;
            assert(entries@.take(0) =~= Seq::<Entry>::empty());
            while i < n
                invariant
                    i <= n,
                    n == entries@.len(),
                    texts(names@) == decodable_names(entries@.take(i as int)),
                decreases n - i,
            {
                let ghost found = texts(names@);
                proof {
                    assert(entries@.take(i + 1).drop_last() =~= entries@.take(i as int));
                }
                match &entries[i] {
                    Entry::Name(name) => {
                        names.push(name.clone());
                        assert(texts(names@) =~= found.push(name@));
                    },
                    Entry::Invalid => {},
                }
                i += 1;
            }
            assert(entries@.take(n as int) =~= entries@);
        },
    }
    proof {
        assert(texts(names@) =~= wanted);
    }
    sort_names(&mut names);
    proof {
        broadcast use vstd::seq_lib::group_to_multiset_ensures;

        assert(texts(names@).to_multiset().len() == names@.len());
        assert(wanted.to_multiset().len() == wanted.len());
    }
    names
}

} // verus!
