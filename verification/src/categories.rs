//! The category table and the protected folder names.

use vstd::prelude::*;
use vstd::string::*;
use crate::text::{lowercase, to_lowercase};

verus! {

/// One line of the category table: files with this extension belong in this
/// category folder.
pub struct ExtensionRule {
    pub extension: String,
    pub category: String,
}

/// Whether some rule of `rules` has the extension `key`.
pub open spec fn has_rule(rules: Seq<ExtensionRule>, key: Seq<char>) -> bool {
    exists|i: int| 0 <= i < rules.len() && #[trigger] rules[i].extension@ == key
}

/// Whether no two rules of `rules` have the same extension.
pub open spec fn distinct_extensions(rules: Seq<ExtensionRule>) -> bool {
    forall|i: int, j: int|
        0 <= i < j < rules.len() ==> #[trigger] rules[i].extension@
            != #[trigger] rules[j].extension@
}

/// The mapping that `rules` stands for.
pub open spec fn rules_map(rules: Seq<ExtensionRule>) -> Map<Seq<char>, Seq<char>> {
    Map::new(
        |key: Seq<char>| has_rule(rules, key),
        |key: Seq<char>|
            {
                let i = choose|i: int|
                    0 <= i < rules.len() && #[trigger] rules[i].extension@ == key;
                rules[i].category@
            },
    )
}

/// In a list without repeated extensions, the mapping gives for each rule's
/// extension that rule's category.
pub proof fn lemma_rule_found(rules: Seq<ExtensionRule>, i: int)
    requires
        distinct_extensions(rules),
        0 <= i < rules.len(),
    ensures
        rules_map(rules).contains_key(rules[i].extension@),
        rules_map(rules)[rules[i].extension@] == rules[i].category@,
{
    let key = rules[i].extension@;
    let j = choose|j: int| 0 <= j < rules.len() && #[trigger] rules[j].extension@ == key;
    assert(j == i);
}

/// Replacing the rule at `i` by one with the same extension updates the
/// mapping at that extension and keeps the list free of repetitions.
proof fn lemma_rule_replaced(before: Seq<ExtensionRule>, i: int, after: Seq<ExtensionRule>)
    requires
        distinct_extensions(before),
        0 <= i < before.len(),
        after.len() == before.len(),
        after[i].extension@ == before[i].extension@,
        forall|j: int| 0 <= j < before.len() && j != i ==> after[j] == before[j],
    ensures
        distinct_extensions(after),
        rules_map(after) == rules_map(before).insert(after[i].extension@, after[i].category@),
{
    assert(forall|j: int| 0 <= j < after.len() ==> after[j].extension@ == before[j].extension@);
    assert forall|a: int, b: int| 0 <= a < b < after.len() implies #[trigger] after[a].extension@
        != #[trigger] after[b].extension@ by {
        assert(after[a].extension@ == before[a].extension@);
        assert(after[b].extension@ == before[b].extension@);
        assert(before[a].extension@ != before[b].extension@);
    }
    let want = rules_map(before).insert(after[i].extension@, after[i].category@);
    assert forall|key: Seq<char>| #[trigger]
        rules_map(after).contains_key(key) == want.contains_key(key) && (want.contains_key(key)
            ==> rules_map(after)[key] == want[key]) by {
        if has_rule(after, key) {
            let j = choose|j: int| 0 <= j < after.len() && #[trigger] after[j].extension@ == key;
            assert(before[j].extension@ == key);
            assert(has_rule(before, key));
            lemma_rule_found(after, j);
            lemma_rule_found(before, j);
        }
        if has_rule(before, key) {
            let j = choose|j: int| 0 <= j < before.len() && #[trigger] before[j].extension@ == key;
            assert(after[j].extension@ == key);
            assert(has_rule(after, key));
        }
    }
    assert(rules_map(after) =~= want);
}

/// Appending a rule whose extension the list does not hold yet adds it to the
/// mapping and keeps the list free of repetitions.
proof fn lemma_rule_added(before: Seq<ExtensionRule>, after: Seq<ExtensionRule>)
    requires
        distinct_extensions(before),
        after.len() == before.len() + 1,
        after.drop_last() == before,
        !has_rule(before, after.last().extension@),
    ensures
        distinct_extensions(after),
        rules_map(after) == rules_map(before).insert(
            after.last().extension@,
            after.last().category@,
        ),
{
    let n = before.len() as int;
    let added = after[n];
    assert(added == after.last());
    assert forall|j: int| 0 <= j < n implies after[j] == before[j] by {
        assert(after.drop_last()[j] == after[j]);
    }
    assert forall|j: int| 0 <= j < n implies before[j].extension@ != added.extension@ by {
        if before[j].extension@ == added.extension@ {
            assert(has_rule(before, added.extension@));
        }
    }
    assert forall|a: int, b: int| 0 <= a < b < after.len() implies #[trigger] after[a].extension@
        != #[trigger] after[b].extension@ by {
        assert(after[a] == before[a]);
        if b < n {
            assert(after[b] == before[b]);
            assert(before[a].extension@ != before[b].extension@);
        } else {
            assert(after[b] == added);
            assert(before[a].extension@ != added.extension@);
        }
    }
    let want = rules_map(before).insert(added.extension@, added.category@);
    assert forall|key: Seq<char>| #[trigger]
        rules_map(after).contains_key(key) == want.contains_key(key) && (want.contains_key(key)
            ==> rules_map(after)[key] == want[key]) by {
        if has_rule(after, key) {
            let j = choose|j: int| 0 <= j < after.len() && #[trigger] after[j].extension@ == key;
            lemma_rule_found(after, j);
            if j < n {
                assert(before[j].extension@ == key);
                assert(has_rule(before, key));
                lemma_rule_found(before, j);
            }
        }
        if key == added.extension@ {
            assert(after[n].extension@ == key);
            assert(has_rule(after, key));
        } else if has_rule(before, key) {
            let j = choose|j: int| 0 <= j < before.len() && #[trigger] before[j].extension@ == key;
            assert(after[j].extension@ == key);
            assert(has_rule(after, key));
        }
    }
    assert(rules_map(after) =~= want);
}

/// The character sequences of a list of strings.
pub open spec fn texts(strings: Seq<&str>) -> Seq<Seq<char>> {
    Seq::new(strings.len(), |i: int| strings[i]@)
}

/// The mapping `table` after each extension of `extensions`, taken in order
/// and in lower case, has been mapped to `category`.
pub open spec fn with_group(
    table: Map<Seq<char>, Seq<char>>,
    category: Seq<char>,
    extensions: Seq<Seq<char>>,
) -> Map<Seq<char>, Seq<char>>
    decreases extensions.len(),
{
    if extensions.len() == 0 {
        table
    } else {
        with_group(table, category, extensions.drop_last()).insert(
            lowercase(extensions.last()),
            category,
        )
    }
}

/// What `with_group` does where the extensions are written in lower case
/// already: each of them is mapped to `category`, and every other extension
/// keeps what `table` gave for it.
pub proof fn lemma_with_group(
    table: Map<Seq<char>, Seq<char>>,
    category: Seq<char>,
    extensions: Seq<Seq<char>>,
)
    requires
        forall|i: int|
            0 <= i < extensions.len() ==> lowercase(#[trigger] extensions[i]) == extensions[i],
    ensures
        forall|key: Seq<char>| #[trigger]
            with_group(table, category, extensions).contains_key(key) == (extensions.contains(key)
                || table.contains_key(key)),
        forall|key: Seq<char>|
            extensions.contains(key) ==> #[trigger] with_group(table, category, extensions)[key]
                == category,
        forall|key: Seq<char>|
            !extensions.contains(key) ==> #[trigger] with_group(table, category, extensions)[key]
                == table[key],
    decreases extensions.len(),
{
    if extensions.len() > 0 {
        let rest = extensions.drop_last();
        let last = extensions.last();
        assert(forall|i: int| 0 <= i < rest.len() ==> rest[i] == extensions[i]);
        lemma_with_group(table, category, rest);
        assert(lowercase(last) == last);
        let result = with_group(table, category, extensions);
        assert(result == with_group(table, category, rest).insert(last, category));
        assert forall|key: Seq<char>| extensions.contains(key) == (rest.contains(key) || key
            == last) by {
            if extensions.contains(key) {
                let i = choose|i: int| 0 <= i < extensions.len() && extensions[i] == key;
                if i < rest.len() {
                    assert(rest[i] == key);
                }
            }
            if rest.contains(key) {
                let i = choose|i: int| 0 <= i < rest.len() && rest[i] == key;
                assert(extensions[i] == key);
            }
            if key == last {
                assert(extensions[extensions.len() - 1] == key);
            }
        }
    } else {
        assert(forall|key: Seq<char>| !extensions.contains(key));
    }
}

/// A mapping from extension to category name. Extensions are held in lower
/// case, each at most once.
pub struct ExtensionMap {
    rules: Vec<ExtensionRule>,
}

impl View for ExtensionMap {
    type V = Map<Seq<char>, Seq<char>>;

    closed spec fn view(&self) -> Map<Seq<char>, Seq<char>> {
        rules_map(self.rules@)
    }
}

impl ExtensionMap {
    /// The table's invariant: no extension is held twice.
    pub closed spec fn wf(&self) -> bool {
        distinct_extensions(self.rules@)
    }

    /// The empty table.
    pub fn new() -> (table: ExtensionMap)
        ensures
            table.wf(),
            table@ == Map::<Seq<char>, Seq<char>>::empty(),
    {
        let table = ExtensionMap { rules: Vec::new() };
        assert(table@ =~= Map::<Seq<char>, Seq<char>>::empty());
        table
    }

    /// The position of the rule for `key`, if there is one.
    fn position(&self, key: &str) -> (r: Option<usize>)
        ensures
            match r {
                Some(i) => i < self.rules@.len() && self.rules@[i as int].extension@ == key@,
                None => !has_rule(self.rules@, key@),
            },
    {
        let wanted = String::from_str(key);
        let mut i: usize = 0;
        while i < self.rules.len()
            invariant
                wanted@ == key@,
                i <= self.rules@.len(),
                forall|j: int| 0 <= j < i ==> self.rules@[j].extension@ != key@,
            decreases self.rules@.len() - i,
        {
            if self.rules[i].extension == wanted {
                return Some(i);
            }
            i = i + 1;
        }
        None
    }

    /// Maps the lower-case form of `extension` to `category`. A category that
    /// the table held for it before is replaced.
    pub fn insert(&mut self, extension: &str, category: &str)
        requires
            old(self).wf(),
        ensures
            final(self).wf(),
            final(self)@ == old(self)@.insert(lowercase(extension@), category@),
    {
        let key = to_lowercase(extension);
        let rule = ExtensionRule { extension: key, category: String::from_str(category) };
        let ghost before = self.rules@;
        match self.position(rule.extension.as_str()) {
            Some(i) => {
                self.rules.set(i, rule);
                proof {
                    lemma_rule_replaced(before, i as int, self.rules@);
                }
            },
            None => {
                self.rules.push(rule);
                proof {
                    assert(self.rules@.drop_last() =~= before);
                    lemma_rule_added(before, self.rules@);
                }
            },
        }
    }

    /// Maps each extension of `extensions`, in lower case, to `category`.
    pub fn insert_group(&mut self, category: &str, extensions: &[&str])
        requires
            old(self).wf(),
        ensures
            final(self).wf(),
            final(self)@ == with_group(old(self)@, category@, texts(extensions@)),
    {
        let mut i: usize = 0;
        while i < extensions.len()
            invariant
                i <= extensions@.len(),
                self.wf(),
                self@ == with_group(
                    old(self)@,
                    category@,
                    texts(extensions@).subrange(0, i as int),
                ),
            decreases extensions@.len() - i,
        {
            self.insert(extensions[i], category);
            i = i + 1;
            proof {
                let done = texts(extensions@).subrange(0, i as int);
                assert(done.drop_last() =~= texts(extensions@).subrange(0, i - 1));
            }
        }
        assert(texts(extensions@).subrange(0, i as int) =~= texts(extensions@));
    }

    /// The category that the table gives for `extension`, matched exactly as
    /// it is written.
    pub fn lookup(&self, extension: &str) -> (r: Option<String>)
        requires
            self.wf(),
        ensures
            match r {
                Some(category) => self@.contains_key(extension@) && category@ == self@[extension@],
                None => !self@.contains_key(extension@),
            },
    {
        match self.position(extension) {
            Some(i) => {
                proof {
                    lemma_rule_found(self.rules@, i as int);
                }
                Some(self.rules[i].category.clone())
            },
            None => None,
        }
    }
}

/// Whether `names` holds the name `name`.
pub open spec fn has_name(names: Seq<String>, name: Seq<char>) -> bool {
    exists|i: int| 0 <= i < names.len() && #[trigger] names[i]@ == name
}

/// A set of folder names that are never relocated.
pub struct ProtectedNames {
    names: Vec<String>,
}

impl View for ProtectedNames {
    type V = Set<Seq<char>>;

    closed spec fn view(&self) -> Set<Seq<char>> {
        Set::new(|name: Seq<char>| has_name(self.names@, name))
    }
}

impl ProtectedNames {
    /// The set's invariant: no name is held twice.
    pub closed spec fn wf(&self) -> bool {
        forall|i: int, j: int|
            0 <= i < j < self.names@.len() ==> #[trigger] self.names@[i]@
                != #[trigger] self.names@[j]@
    }

    /// The empty set.
    pub fn new() -> (set: ProtectedNames)
        ensures
            set.wf(),
            set@ == Set::<Seq<char>>::empty(),
    {
        let set = ProtectedNames { names: Vec::new() };
        assert(set@ =~= Set::<Seq<char>>::empty());
        set
    }

    /// Whether `name` is in the set, letter for letter.
    pub fn is_protected(&self, name: &str) -> (r: bool)
        ensures
            r == self@.contains(name@),
    {
        let wanted = String::from_str(name);
        let mut i: usize = 0;
        while i < self.names.len()
            invariant
                wanted@ == name@,
                i <= self.names@.len(),
                forall|j: int| 0 <= j < i ==> self.names@[j]@ != name@,
            decreases self.names@.len() - i,
        {
            if self.names[i] == wanted {
                return true;
            }
            i = i + 1;
        }
        false
    }

    /// Adds `name` to the set.
    pub fn insert(&mut self, name: &str)
        requires
            old(self).wf(),
        ensures
            final(self).wf(),
            final(self)@ == old(self)@.insert(name@),
    {
        if !self.is_protected(name) {
            let ghost before = self.names@;
            self.names.push(String::from_str(name));
            proof {
                let after = self.names@;
                let n = before.len() as int;
                assert(forall|j: int| 0 <= j < n ==> after[j] == before[j]);
                assert(after[n]@ == name@);
                assert forall|other: Seq<char>| self@.contains(other) implies old(self)@.insert(
                    name@,
                ).contains(other) by {
                    let j = choose|j: int| 0 <= j < after.len() && #[trigger] after[j]@ == other;
                    if j < n {
                        assert(before[j]@ == other);
                    }
                }
                assert forall|other: Seq<char>|
                    old(self)@.insert(name@).contains(other) implies self@.contains(other) by {
                    if other == name@ {
                        assert(after[n]@ == other);
                    } else {
                        let j = choose|j: int|
                            0 <= j < before.len() && #[trigger] before[j]@ == other;
                        assert(after[j]@ == other);
                    }
                }
                assert forall|a: int, b: int| 0 <= a < b < after.len() implies #[trigger] after[a]@
                    != #[trigger] after[b]@ by {
                    assert(after[a] == before[a]);
                    if b < n {
                        assert(after[b] == before[b]);
                    }
                }
            }
        }
        assert(self@ =~= old(self)@.insert(name@));
    }
}

} // verus!
