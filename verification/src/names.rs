//! The names and colors under which users appear.

use vstd::prelude::*;

use crate::columns::{columns, str_width};
use crate::widgets::Color;

verus! {

/// A user with the name and the color under which they appear.
#[derive(Debug, PartialEq, Eq)]
pub struct NameEntry {
    pub id: u128,
    pub name: String,
    pub color: Color,
}

/// The names and colors of the users of a channel.
#[derive(Debug, PartialEq, Eq)]
pub struct NameResolver {
    pub entries: Vec<NameEntry>,
    /// The name of a user that is not among the entries.
    pub unknown_name: String,
    /// The color of a user that is not among the entries.
    pub unknown_color: Color,
    /// The width of the widest name among the entries.
    pub max_name_width: usize,
}

/// The first entry of a user.
pub open spec fn entry_of(entries: Seq<NameEntry>, id: u128) -> Option<NameEntry>
    decreases entries.len(),
{
    if entries.len() == 0 {
        None
    } else if entries[0].id == id {
        Some(entries[0])
    } else {
        entry_of(entries.drop_first(), id)
    }
}

/// The width of the widest name.
pub open spec fn widest_name(entries: Seq<NameEntry>) -> nat
    decreases entries.len(),
{
    if entries.len() == 0 {
        0
    } else {
        let rest = widest_name(entries.drop_last());
        let last = columns(entries.last().name@);
        if last > rest {
            last
        } else {
            rest
        }
    }
}

impl NameResolver {
    /// Whether the stored width is that of the widest name.
    pub open spec fn wf(self) -> bool {
        self.max_name_width == widest_name(self.entries@)
    }

    /// The name of a user.
    pub open spec fn name_of(self, id: u128) -> Seq<char> {
        match entry_of(self.entries@, id) {
            Some(entry) => entry.name@,
            None => self.unknown_name@,
        }
    }

    /// The color of a user.
    pub open spec fn color_of(self, id: u128) -> Color {
        match entry_of(self.entries@, id) {
            Some(entry) => entry.color,
            None => self.unknown_color,
        }
    }

    /// A resolver of the given users; all others share one name and color.
    pub fn new(entries: Vec<NameEntry>, unknown_name: String, unknown_color: Color) -> (r: Self)
        ensures
            r.wf(),
            r.entries == entries,
            r.unknown_name == unknown_name,
            r.unknown_color == unknown_color,
    {
        let mut widest: usize = 0;
        for i in 0..entries.len()
            invariant
                widest == widest_name(entries@.take(i as int)),
        {
            assert(entries@.take(i + 1).drop_last() =~= entries@.take(i as int));
            let width: usize = str_width(entries[i].name.as_str());
            if width > widest {
                widest = width;
            }
        }
        assert(entries@.take(entries@.len() as int) =~= entries@);
        NameResolver { entries, unknown_name, unknown_color, max_name_width: widest }
    }

    /// A resolver of one user, under whose name and color all others appear, too.
    pub fn single_user(user_id: u128, username: String, color: Color) -> (r: Self)
        ensures
            r.wf(),
            forall|id: u128| r.name_of(id) == username@ && r.color_of(id) == color,
            r.max_name_width == columns(username@),
    {
        let unknown = username.clone();
        let mut entries: Vec<NameEntry> = Vec::new();
        entries.push(NameEntry { id: user_id, name: username, color });
        proof {
            assert(entries@.drop_last() =~= Seq::<NameEntry>::empty());
            assert(entries@.drop_first() =~= Seq::<NameEntry>::empty());
            reveal_with_fuel(widest_name, 2);
            reveal_with_fuel(entry_of, 2);
        }
        Self::new(entries, unknown, color)
    }

    /// The name and the color of a user.
    pub fn resolve(&self, id: u128) -> (r: (&str, Color))
        ensures
            r.0@ == self.name_of(id),
            r.1 == self.color_of(id),
    {
        assert(self.entries@.skip(0) =~= self.entries@);
        for i in 0..self.entries.len()
            invariant
                entry_of(self.entries@, id) == entry_of(self.entries@.skip(i as int), id),
        {
            assert(self.entries@.skip(i as int).drop_first() =~= self.entries@.skip(i + 1));
            if self.entries[i].id == id {
                return (self.entries[i].name.as_str(), self.entries[i].color);
            }
        }
        (self.unknown_name.as_str(), self.unknown_color)
    }

    /// The width of the widest name.
    pub fn max_name_width(&self) -> (w: usize)
        ensures
            w == self.max_name_width,
            self.wf() ==> w == widest_name(self.entries@),
    {
        self.max_name_width
    }
}

/// No known name is wider than the widest.
pub proof fn law_names_fit(names: NameResolver, id: u128)
    requires
        names.wf(),
        entry_of(names.entries@, id) is Some,
    ensures
        columns(names.name_of(id)) <= names.max_name_width,
{
    lemma_known_name(names.entries@, id);
}

/// A user appears under the name and in the color of the first entry with their id, whoever else
/// is among the entries.
pub proof fn law_first_entry_names(names: NameResolver, i: int)
    requires
        0 <= i < names.entries@.len(),
        forall|j: int| 0 <= j < i ==> (#[trigger] names.entries@[j]).id != names.entries@[i].id,
    ensures
        names.name_of(names.entries@[i].id) == names.entries@[i].name@,
        names.color_of(names.entries@[i].id) == names.entries@[i].color,
{
    lemma_first_entry(names.entries@, i);
}

proof fn lemma_first_entry(entries: Seq<NameEntry>, i: int)
    requires
        0 <= i < entries.len(),
        forall|j: int| 0 <= j < i ==> (#[trigger] entries[j]).id != entries[i].id,
    ensures
        entry_of(entries, entries[i].id) == Some(entries[i]),
    decreases entries.len(),
{
    if i > 0 {
        let rest = entries.drop_first();
        assert(entries[0].id != entries[i].id);
        assert forall|j: int| 0 <= j < i - 1 implies (#[trigger] rest[j]).id != rest[i - 1].id by {
            assert(entries[j + 1].id != entries[i].id);
        }
        lemma_first_entry(rest, i - 1);
    }
}

/// A user without an entry appears under the name and in the color of unknown users.
pub proof fn law_strangers_are_unknown(names: NameResolver, id: u128)
    requires
        forall|j: int| 0 <= j < names.entries@.len() ==> (#[trigger] names.entries@[j]).id != id,
    ensures
        names.name_of(id) == names.unknown_name@,
        names.color_of(id) == names.unknown_color,
{
    lemma_no_entry(names.entries@, id);
}

proof fn lemma_no_entry(entries: Seq<NameEntry>, id: u128)
    requires
        forall|j: int| 0 <= j < entries.len() ==> (#[trigger] entries[j]).id != id,
    ensures
        entry_of(entries, id) is None,
    decreases entries.len(),
{
    if entries.len() > 0 {
        let rest = entries.drop_first();
        assert(entries[0].id != id);
        assert forall|j: int| 0 <= j < rest.len() implies (#[trigger] rest[j]).id != id by {
            assert(entries[j + 1].id != id);
        }
        lemma_no_entry(rest, id);
    }
}

/// The width of the widest name is that of one of the names, and no name is wider.
pub proof fn law_widest_name(names: NameResolver)
    requires
        names.wf(),
    ensures
        forall|i: int|
            0 <= i < names.entries@.len() ==> columns((#[trigger] names.entries@[i]).name@)
                <= names.max_name_width,
        names.entries@.len() == 0 ==> names.max_name_width == 0,
        names.entries@.len() > 0 ==> exists|i: int|
            0 <= i < names.entries@.len() && columns((#[trigger] names.entries@[i]).name@)
                == names.max_name_width,
{
    assert forall|i: int| 0 <= i < names.entries@.len() implies columns(
        (#[trigger] names.entries@[i]).name@,
    ) <= names.max_name_width by {
        lemma_widest(names.entries@, i);
    }
    if names.entries@.len() > 0 {
        let _ = lemma_widest_is_one(names.entries@);
    }
}

proof fn lemma_widest_is_one(entries: Seq<NameEntry>) -> (i: int)
    requires
        entries.len() > 0,
    ensures
        0 <= i < entries.len(),
        columns(entries[i].name@) == widest_name(entries),
    decreases entries.len(),
{
    let n = entries.len() - 1;
    if n == 0 || columns(entries[n].name@) > widest_name(entries.drop_last()) {
        reveal_with_fuel(widest_name, 2);
        n
    } else {
        lemma_widest_is_one(entries.drop_last())
    }
}

proof fn lemma_known_name(entries: Seq<NameEntry>, id: u128)
    requires
        entry_of(entries, id) is Some,
    ensures
        exists|i: int|
            0 <= i < entries.len() && entry_of(entries, id) == Some(#[trigger] entries[i]),
        columns(entry_of(entries, id)->0.name@) <= widest_name(entries),
    decreases entries.len(),
{
    if entries[0].id == id {
        lemma_widest(entries, 0);
    } else {
        let rest = entries.drop_first();
        lemma_known_name(rest, id);
        let i = choose|i: int|
            0 <= i < rest.len() && entry_of(rest, id) == Some(#[trigger] rest[i]);
        assert(entries[i + 1] == rest[i]);
        lemma_widest(entries, i + 1);
    }
}

proof fn lemma_widest(entries: Seq<NameEntry>, i: int)
    requires
        0 <= i < entries.len(),
    ensures
        columns(entries[i].name@) <= widest_name(entries),
    decreases entries.len(),
{
    if i < entries.len() - 1 {
        lemma_widest(entries.drop_last(), i);
    }
}

} // verus!
