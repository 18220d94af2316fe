//! A database of card definitions, looked up by name regardless of case.

use vstd::prelude::*;
use crate::card_loader::{CardDefinition, CardText};
use crate::text::{lowercase_of, to_lowercase, str_eq, chars_of, concat2, concat3, push_str};
use vstd::string::StrSliceExecFns;

verus! {

/// Card definitions by lowercase name.
pub struct CardDatabase {
    entries: Vec<(String, CardDefinition)>,
}

/// The lookup keys of the entries.
pub open spec fn entry_keys(es: Seq<(String, CardDefinition)>) -> Seq<Seq<char>> {
    es.map_values(|e: (String, CardDefinition)| e.0@)
}

/// The entries as a map from key to definition (a later entry wins).
pub open spec fn entries_map(es: Seq<(String, CardDefinition)>) -> Map<Seq<char>, CardText>
    decreases es.len(),
{
    if es.len() == 0 {
        Map::empty()
    } else {
        entries_map(es.drop_last()).insert(es.last().0@, es.last().1@)
    }
}

/// The entries have distinct keys, each the lowercase form of its card's name.
pub open spec fn entries_wf(es: Seq<(String, CardDefinition)>) -> bool {
    &&& entry_keys(es).no_duplicates()
    &&& forall|i: int| 0 <= i < es.len() ==> (#[trigger] es[i]).0@ == lowercase_of(es[i].1.name@)
}

proof fn lemma_entries_map(es: Seq<(String, CardDefinition)>)
    requires
        entry_keys(es).no_duplicates(),
    ensures
        entries_map(es).dom() == entry_keys(es).to_set(),
        forall|i: int| 0 <= i < es.len() ==> entries_map(es)[(#[trigger] es[i]).0@] == es[i].1@,
    decreases es.len(),
{
    if es.len() > 0 {
        let init = es.drop_last();
        assert(entry_keys(init) =~= entry_keys(es).drop_last());
        lemma_entries_map(init);
        assert(entries_map(es).dom() =~= entry_keys(es).to_set()) by {
            assert forall|k: Seq<char>| entry_keys(es).to_set().contains(k) implies entries_map(es).dom().contains(k) by {
                let i = choose|i: int| 0 <= i < entry_keys(es).len() && entry_keys(es)[i] == k;
                if i < init.len() {
                    assert(entry_keys(init)[i] == k);
                    assert(entry_keys(init).to_set().contains(k));
                }
            }
            assert forall|k: Seq<char>| entries_map(es).dom().contains(k) implies entry_keys(es).to_set().contains(k) by {
                if k != es.last().0@ {
                    assert(entry_keys(init).to_set().contains(k));
                    let i = choose|i: int| 0 <= i < entry_keys(init).len() && entry_keys(init)[i] == k;
                    assert(entry_keys(es)[i] == k);
                } else {
                    assert(entry_keys(es)[es.len() - 1] == k);
                }
            }
        }
        assert forall|i: int| 0 <= i < es.len() implies entries_map(es)[(#[trigger] es[i]).0@] == es[i].1@ by {
            if i < es.len() - 1 {
                assert(init[i] == es[i]);
                assert(entry_keys(es)[i] != entry_keys(es)[es.len() - 1]);
            }
        }
    }
}

proof fn lemma_entries_map_update(es: Seq<(String, CardDefinition)>, i: int, e: (String, CardDefinition))
    requires
        entry_keys(es).no_duplicates(),
        0 <= i < es.len(),
        e.0@ == es[i].0@,
    ensures
        entries_map(es.update(i, e)) == entries_map(es).insert(e.0@, e.1@),
        entry_keys(es.update(i, e)) == entry_keys(es),
    decreases es.len(),
{
    let es2 = es.update(i, e);
    assert(entry_keys(es2) =~= entry_keys(es));
    if i == es.len() - 1 {
        assert(es2.drop_last() =~= es.drop_last());
        assert(entries_map(es2) =~= entries_map(es).insert(e.0@, e.1@));
    } else {
        let init = es.drop_last();
        assert(entry_keys(init) =~= entry_keys(es).drop_last());
        assert(es2.drop_last() =~= init.update(i, e));
        lemma_entries_map_update(init, i, e);
        assert(entry_keys(es)[i] != entry_keys(es)[es.len() - 1]);
        assert(entries_map(es2) =~= entries_map(es).insert(e.0@, e.1@));
    }
}

impl View for CardDatabase {
    type V = Map<Seq<char>, CardText>;

    closed spec fn view(&self) -> Map<Seq<char>, CardText> {
        entries_map(self.entries@)
    }
}

impl CardDatabase {
    #[verifier::type_invariant]
    spec fn inv(self) -> bool {
        entries_wf(self.entries@)
    }

    /// An empty database.
    pub fn new() -> (r: Self)
        ensures
            r@ == Map::<Seq<char>, CardText>::empty(),
    {
        CardDatabase { entries: Vec::new() }
    }

    /// The position of the entry with this key.
    fn find(&self, key: &String) -> (r: Option<usize>)
        ensures
            match r {
                Some(i) => i < self.entries@.len() && self.entries@[i as int].0@ == key@,
                None => forall|i: int| 0 <= i < self.entries@.len() ==> (#[trigger] self.entries@[i]).0@ != key@,
            },
    {
        let mut i: usize = 0;
        while i < self.entries.len()
            invariant
                i <= self.entries@.len(),
                forall|j: int| 0 <= j < i ==> (#[trigger] self.entries@[j]).0@ != key@,
            decreases self.entries.len() - i,
        {
            if str_eq(self.entries[i].0.as_str(), key.as_str()) {
                return Some(i);
            }
            i = i + 1;
        }
        None
    }

    /// Adds a definition under its lowercase name, replacing any definition
    /// with that name.
    pub fn add_card(&mut self, card_def: CardDefinition)
        ensures
            final(self)@ == old(self)@.insert(lowercase_of(card_def.name@), card_def@),
    {
        proof {
            use_type_invariant(&*self);
        }
        let key = to_lowercase(card_def.name.as_str());
        let ghost es = self.entries@;
        let found = self.find(&key);
        let mut entries: Vec<(String, CardDefinition)> = Vec::new();
        std::mem::swap(&mut entries, &mut self.entries);
        match found {
            Some(i) => {
                proof {
                    lemma_entries_map_update(es, i as int, (key, card_def));
                }
                entries.set(i, (key, card_def));
            },
            None => {
                let ghost e = (key, card_def);
                proof {
                    assert(es.push(e).drop_last() =~= es);
                    assert(entry_keys(es.push(e)) =~= entry_keys(es).push(key@));
                    assert(entry_keys(es.push(e)).no_duplicates()) by {
                        assert forall|a: int, b: int|
                            0 <= a < es.len() + 1 && 0 <= b < es.len() + 1 && a != b implies entry_keys(es.push(e))[a]
                            != entry_keys(es.push(e))[b] by {
                            if a < es.len() && b < es.len() {
                                assert(entry_keys(es)[a] != entry_keys(es)[b]);
                            } else if a < es.len() {
                                assert(es[a].0@ != key@);
                            } else {
                                assert(es[b].0@ != key@);
                            }
                        }
                    }
                }
                entries.push((key, card_def));
            },
        }
        self.entries = entries;
    }

    /// The definition with this name, regardless of case.
    pub fn get_card(&self, name: &str) -> (r: Option<&CardDefinition>)
        ensures
            match r {
                Some(d) => self@.contains_key(lowercase_of(name@)) && d@ == self@[lowercase_of(name@)],
                None => !self@.contains_key(lowercase_of(name@)),
            },
    {
        proof {
            use_type_invariant(self);
            lemma_entries_map(self.entries@);
        }
        let key = to_lowercase(name);
        match self.find(&key) {
            Some(i) => {
                proof {
                    assert(entry_keys(self.entries@)[i as int] == key@);
                }
                Some(&self.entries[i].1)
            },
            None => {
                proof {
                    assert(!entry_keys(self.entries@).contains(key@)) by {
                        if entry_keys(self.entries@).contains(key@) {
                            let j = choose|j: int| 0 <= j < entry_keys(self.entries@).len() && entry_keys(self.entries@)[j] == key@;
                            assert(self.entries@[j].0@ == key@);
                        }
                    }
                }
                None
            },
        }
    }

    /// Whether a definition with this name is there, regardless of case.
    pub fn contains(&self, name: &str) -> (r: bool)
        ensures
            r == self@.contains_key(lowercase_of(name@)),
    {
        match self.get_card(name) {
            Some(_) => true,
            None => false,
        }
    }

    /// The number of definitions.
    pub fn len(&self) -> (r: usize)
        ensures
            r == self@.len(),
    {
        proof {
            use_type_invariant(self);
            lemma_entries_map(self.entries@);
            entry_keys(self.entries@).unique_seq_to_set();
        }
        self.entries.len()
    }

    /// Whether there is no definition.
    pub fn is_empty(&self) -> (r: bool)
        ensures
            r == (self@.len() == 0),
    {
        self.len() == 0
    }
}

impl Default for CardDatabase {
    /// An empty database.
    fn default() -> (r: Self)
        ensures
            r@ == Map::<Seq<char>, CardText>::empty(),
    {
        Self::new()
    }
}

} // verus!

verus! {

/// A definition added under a name is what a lookup of that name, in any
/// case, gives back; lookups of other names are unchanged.
pub proof fn law_get_after_add(db: Map<Seq<char>, CardText>, def_name: Seq<char>, def: CardText, name: Seq<char>)
    ensures
        lowercase_of(name) == lowercase_of(def_name) ==> db.insert(lowercase_of(def_name), def).contains_key(
            lowercase_of(name),
        ) && db.insert(lowercase_of(def_name), def)[lowercase_of(name)] == def,
        lowercase_of(name) != lowercase_of(def_name) ==> (db.insert(lowercase_of(def_name), def).contains_key(
            lowercase_of(name),
        ) == db.contains_key(lowercase_of(name)) && (db.contains_key(lowercase_of(name)) ==> db.insert(
            lowercase_of(def_name),
            def,
        )[lowercase_of(name)] == db[lowercase_of(name)])),
{
}

} // verus!

verus! {

/// What a character of a lowercase card name becomes in its file name: spaces
/// and hyphens become underscores; apostrophes, commas, colons, `!`, `?` and
/// the NUL character are dropped; anything else is kept.
pub open spec fn file_name_char(c: char) -> Seq<char> {
    if c == ' ' || c == '-' {
        seq!['_']
    } else if c == '\'' || c == ',' || c == ':' || c == '!' || c == '?' || c == '\0' {
        Seq::empty()
    } else {
        seq![c]
    }
}

/// The file name stem of a lowercase card name, character by character.
pub open spec fn file_stem(s: Seq<char>) -> Seq<char>
    decreases s.len(),
{
    if s.len() == 0 {
        Seq::empty()
    } else {
        file_stem(s.drop_last()) + file_name_char(s.last())
    }
}

/// `base` joined with `part` as `Path::join` does with `/` as the separator: an
/// absolute `part` replaces `base`; otherwise a separator is put between them
/// unless `base` is empty or already ends with one.
pub open spec fn path_join(base: Seq<char>, part: Seq<char>) -> Seq<char> {
    if part.len() > 0 && part[0] == '/' {
        part
    } else if base.len() == 0 || base.last() == '/' {
        base + part
    } else {
        base + seq!['/'] + part
    }
}

/// Where the card file of a card lies under the cards folder: in the
/// directory named by the first character of the file stem (`_` for an empty
/// stem), as the stem followed by `.txt`.
pub open spec fn card_path(folder: Seq<char>, card_name: Seq<char>) -> Seq<char> {
    let stem = file_stem(lowercase_of(card_name));
    let first = if stem.len() > 0 { stem[0] } else { '_' };
    path_join(path_join(folder, seq![first]), stem + ".txt"@)
}

fn join_path(base: &str, part: &str) -> (r: String)
    ensures
        r@ == path_join(base@, part@),
{
    let b = chars_of(base);
    let p = chars_of(part);
    if p.len() > 0 && p[0] == '/' {
        part.to_owned()
    } else if b.len() == 0 || b[b.len() - 1] == '/' {
        concat2(base, part)
    } else {
        proof {
            reveal_strlit("/");
        }
        concat3(base, "/", part)
    }
}

/// The path of a card's file under `cardsfolder`: the name lowercased, spaces
/// and hyphens turned into underscores, apostrophes, commas, colons, `!`, `?`
/// and NUL dropped, then `<first char>/<stem>.txt` joined onto the folder.
pub fn card_name_to_path(cardsfolder: &str, card_name: &str) -> (r: String)
    ensures
        r@ == card_path(cardsfolder@, card_name@),
{
    let lower = to_lowercase(card_name);
    let ls = lower.as_str();
    let v = chars_of(ls);
    let mut stem = String::new();
    let mut i: usize = 0;
    proof {
        reveal_strlit("_");
        assert(v@.take(0) =~= Seq::<char>::empty());
    }
    while i < v.len()
        invariant
            0 <= i <= v.len(),
            v@ == ls@,
            ls@ == lower@,
            stem@ == file_stem(v@.take(i as int)),
        decreases v.len() - i,
    {
        let c = v[i];
        proof {
            assert(v@.take(i + 1).drop_last() =~= v@.take(i as int));
            assert(v@.take(i + 1).last() == c);
        }
        if c == ' ' || c == '-' {
            proof {
                reveal_strlit("_");
                assert("_"@ =~= seq!['_']);
            }
            push_str(&mut stem, "_");
        } else if c == '\'' || c == ',' || c == ':' || c == '!' || c == '?' || c == '\0' {
        } else {
            let one = ls.substring_char(i, i + 1);
            proof {
                assert(one@ =~= seq![c]);
            }
            push_str(&mut stem, one);
        }
        i = i + 1;
    }
    proof {
        assert(v@.take(v@.len() as int) =~= v@);
    }
    let sv = chars_of(stem.as_str());
    let first: String = if sv.len() > 0 {
        let f = stem.as_str().substring_char(0, 1);
        proof {
            assert(f@ =~= seq![sv@[0]]);
        }
        f.to_owned()
    } else {
        proof {
            assert("_"@ =~= seq!['_']);
        }
        "_".to_owned()
    };
    let dir = join_path(cardsfolder, first.as_str());
    proof {
        reveal_strlit(".txt");
    }
    let file = concat2(stem.as_str(), ".txt");
    join_path(dir.as_str(), file.as_str())
}

} // verus!
