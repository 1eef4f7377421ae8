//! The in-memory alias catalog: an ordered list of records, keyed by name.
//! Loading and saving the catalog file is the outer layer's concern; every
//! rule about its contents lives here.

use vstd::prelude::*;

use crate::alias::Alias;
use crate::error::AlxError;
use crate::text::is_substring;
use crate::text::lemma_lex_le_total;
use crate::text::lex_le;
use crate::text::pairs_view;
use crate::text::str_contains;
use crate::text::str_eq;
use crate::text::str_le;
use crate::text::strings_view;

verus! {

/// What `str::to_lowercase` returns: opaque here, but a function of the
/// characters alone.
pub uninterp spec fn lower_of(s: Seq<char>) -> Seq<char>;

/// A record with this name is present.
pub open spec fn contains_name(s: Seq<Alias>, n: Seq<char>) -> bool {
    exists|i: int| 0 <= i < s.len() && (#[trigger] s[i]).name@ == n
}

/// Relies on `str::to_lowercase`: the lowercase mapping of the text, a fixed
/// function of its characters.
#[verifier::external_body]
fn to_lower(s: &str) -> (r: String)
    ensures
        r@ == lower_of(s@),
{
    s.to_lowercase()
}

/// Whether a keyword hits one record: case-insensitive substring of its
/// name, its command, or its description.
pub open spec fn search_matches(a: Alias, kw: Seq<char>) -> bool {
    ||| is_substring(lower_of(kw), lower_of(a.name@))
    ||| is_substring(lower_of(kw), lower_of(a.command@))
    ||| match a.description {
        Some(d) => is_substring(lower_of(kw), lower_of(d@)),
        None => false,
    }
}

/// Some record carries this group.
pub open spec fn has_group(s: Seq<Alias>, g: Seq<char>) -> bool {
    exists|i: int| 0 <= i < s.len() && in_group(#[trigger] s[i], g)
}

/// Ascending by the lexicographic order and free of duplicates; together
/// with a fixed membership set this pins one sequence.
pub open spec fn sorted_distinct(gs: Seq<Seq<char>>) -> bool {
    &&& forall|k: int| 0 <= k < gs.len() - 1 ==> lex_le(#[trigger] gs[k], gs[k + 1])
    &&& forall|i: int, j: int| 0 <= i < j < gs.len() ==> gs[i] != gs[j]
}

/// The sequence with the first record of the given name taken out; the
/// sequence itself when the name is absent.
pub open spec fn remove_first_name(s: Seq<Alias>, n: Seq<char>) -> Seq<Alias>
    decreases s.len(),
{
    if s.len() == 0 {
        s
    } else if s.first().name@ == n {
        s.drop_first()
    } else {
        seq![s.first()] + remove_first_name(s.drop_first(), n)
    }
}

/// The catalog after removing each name in turn.
pub open spec fn remove_names(s: Seq<Alias>, ns: Seq<Seq<char>>) -> Seq<Alias>
    decreases ns.len(),
{
    if ns.len() == 0 {
        s
    } else {
        remove_names(remove_first_name(s, ns.first()), ns.drop_first())
    }
}

/// How many of the removals found their record.
pub open spec fn removed_count(s: Seq<Alias>, ns: Seq<Seq<char>>) -> int
    decreases ns.len(),
{
    if ns.len() == 0 {
        0int
    } else {
        (if contains_name(s, ns.first()) {
            1int
        } else {
            0int
        }) + removed_count(remove_first_name(s, ns.first()), ns.drop_first())
    }
}

/// The names whose removal found nothing, in request order.
pub open spec fn missing_names(s: Seq<Alias>, ns: Seq<Seq<char>>) -> Seq<Seq<char>>
    decreases ns.len(),
{
    if ns.len() == 0 {
        Seq::empty()
    } else {
        let rest = missing_names(remove_first_name(s, ns.first()), ns.drop_first());
        if contains_name(s, ns.first()) {
            rest
        } else {
            seq![ns.first()] + rest
        }
    }
}

/// The catalog after merging whole records, skipping taken names; a name
/// inside the merged batch also blocks its later duplicates.
pub open spec fn merge_records(s: Seq<Alias>, xs: Seq<Alias>) -> Seq<Alias>
    decreases xs.len(),
{
    if xs.len() == 0 {
        s
    } else if contains_name(s, xs.first().name@) {
        merge_records(s, xs.drop_first())
    } else {
        merge_records(s.push(xs.first()), xs.drop_first())
    }
}

/// How many merged records were actually added.
pub open spec fn merge_added(s: Seq<Alias>, xs: Seq<Alias>) -> int
    decreases xs.len(),
{
    if xs.len() == 0 {
        0int
    } else if contains_name(s, xs.first().name@) {
        merge_added(s, xs.drop_first())
    } else {
        1 + merge_added(s.push(xs.first()), xs.drop_first())
    }
}

/// A pair with this name is present.
pub open spec fn pair_name_in(s: Seq<(Seq<char>, Seq<char>)>, n: Seq<char>) -> bool {
    exists|i: int| 0 <= i < s.len() && (#[trigger] s[i]).0 == n
}

/// The (name, command) projection of the catalog.
pub open spec fn recs_nc(s: Seq<Alias>) -> Seq<(Seq<char>, Seq<char>)> {
    s.map_values(|a: Alias| (a.name@, a.command@))
}

/// Merging migrated pairs, at the level of (name, command) projections.
pub open spec fn merge_nc(s: Seq<(Seq<char>, Seq<char>)>, ps: Seq<(Seq<char>, Seq<char>)>) -> Seq<
    (Seq<char>, Seq<char>),
>
    decreases ps.len(),
{
    if ps.len() == 0 {
        s
    } else if pair_name_in(s, ps.first().0) {
        merge_nc(s, ps.drop_first())
    } else {
        merge_nc(s.push(ps.first()), ps.drop_first())
    }
}

/// How many migrated pairs were actually added.
pub open spec fn merge_nc_added(s: Seq<(Seq<char>, Seq<char>)>, ps: Seq<(Seq<char>, Seq<char>)>) -> int
    decreases ps.len(),
{
    if ps.len() == 0 {
        0int
    } else if pair_name_in(s, ps.first().0) {
        merge_nc_added(s, ps.drop_first())
    } else {
        1 + merge_nc_added(s.push(ps.first()), ps.drop_first())
    }
}

/// Taking out the first record with name `n` at its known position.
proof fn lemma_remove_first_at(s: Seq<Alias>, n: Seq<char>, i: int)
    requires
        0 <= i < s.len(),
        s[i].name@ == n,
        forall|k: int| 0 <= k < i ==> (#[trigger] s[k]).name@ != n,
    ensures
        remove_first_name(s, n) == s.remove(i),
    decreases i,
{
    if i == 0 {
        assert(s.remove(0) =~= s.drop_first());
    } else {
        assert(s.first().name@ != n);
        lemma_remove_first_at(s.drop_first(), n, i - 1);
        assert(forall|k: int|
            0 <= k < s.drop_first().len() ==> #[trigger] s.drop_first()[k] == s[k + 1]);
        assert(seq![s.first()] + s.drop_first().remove(i - 1) =~= s.remove(i));
    }
}

/// Removing an absent name changes nothing.
proof fn lemma_remove_first_absent(s: Seq<Alias>, n: Seq<char>)
    requires
        !contains_name(s, n),
    ensures
        remove_first_name(s, n) == s,
    decreases s.len(),
{
    if s.len() > 0 {
        assert(s.first().name@ != n);
        assert(!contains_name(s.drop_first(), n)) by {
            if contains_name(s.drop_first(), n) {
                let i = choose|i: int|
                    0 <= i < s.drop_first().len() && (#[trigger] s.drop_first()[i]).name@ == n;
                assert(s[i + 1].name@ == n);
            }
        }
        lemma_remove_first_absent(s.drop_first(), n);
        assert(seq![s.first()] + s.drop_first() =~= s);
    }
}

/// A name is in the catalog exactly when it is in its projection.
proof fn lemma_nc_contains(s: Seq<Alias>, n: Seq<char>)
    ensures
        contains_name(s, n) == pair_name_in(recs_nc(s), n),
{
    if contains_name(s, n) {
        let i = choose|i: int| 0 <= i < s.len() && (#[trigger] s[i]).name@ == n;
        assert(recs_nc(s)[i].0 == n);
    }
    if pair_name_in(recs_nc(s), n) {
        let i = choose|i: int| 0 <= i < recs_nc(s).len() && (#[trigger] recs_nc(s)[i]).0 == n;
        assert(s[i].name@ == n);
    }
}

/// Whether one record falls in a group.
pub open spec fn in_group(a: Alias, g: Seq<char>) -> bool {
    match a.group {
        Some(x) => x@ == g,
        None => false,
    }
}

/// The catalog.
#[derive(Debug)]
pub struct AliasStore {
    pub aliases: Vec<Alias>,
}

impl AliasStore {
    /// An empty catalog.
    pub fn new() -> (r: AliasStore)
        ensures
            r.aliases@.len() == 0,
    {
        AliasStore { aliases: Vec::new() }
    }

    /// The position of the first record with this name.
    fn find_index(&self, name: &str) -> (r: Option<usize>)
        ensures
            match r {
                Some(i) => i < self.aliases@.len() && self.aliases@[i as int].name@ == name@
                    && forall|k: int|
                    0 <= k < i ==> (#[trigger] self.aliases@[k]).name@ != name@,
                None => !contains_name(self.aliases@, name@),
            },
    {
        let mut i: usize = 0;
        while i < self.aliases.len()
            invariant
                i <= self.aliases@.len(),
                forall|k: int| 0 <= k < i ==> (#[trigger] self.aliases@[k]).name@ != name@,
            decreases self.aliases@.len() - i,
        {
            if str_eq(self.aliases[i].name.as_str(), name) {
                return Some(i);
            }
            i += 1;
        }
        None
    }

    /// Whether a record with this name is present.
    pub fn contains(&self, name: &str) -> (r: bool)
        ensures
            r == contains_name(self.aliases@, name@),
    {
        match self.find_index(name) {
            Some(_) => true,
            None => false,
        }
    }

    /// Append a record, unless its name is already taken.
    pub fn add(&mut self, alias: Alias) -> (r: Result<(), AlxError>)
        ensures
            match r {
                Ok(()) => !contains_name(old(self).aliases@, alias.name@) && final(self).aliases@
                    == old(self).aliases@.push(alias),
                Err(AlxError::AliasExists(m)) => contains_name(old(self).aliases@, alias.name@)
                    && m@ == alias.name@ && *final(self) == *old(self),
                Err(_) => false,
            },
    {
        if self.contains(alias.name.as_str()) {
            let m = alias.name.clone();
            return Err(AlxError::AliasExists(m));
        }
        self.aliases.push(alias);
        Ok(())
    }

    /// Remove and return the first record with this name; an error names the
    /// missing alias and leaves the catalog unchanged.
    pub fn remove(&mut self, name: &str) -> (r: Result<Alias, AlxError>)
        ensures
            match r {
                Ok(a) => exists|i: int|
                    {
                        &&& 0 <= i < old(self).aliases@.len()
                        &&& (#[trigger] old(self).aliases@[i]).name@ == name@
                        &&& forall|k: int|
                            0 <= k < i ==> (#[trigger] old(self).aliases@[k]).name@ != name@
                        &&& a == old(self).aliases@[i]
                        &&& final(self).aliases@ == old(self).aliases@.remove(i)
                    },
                Err(AlxError::AliasNotFound(m)) => !contains_name(old(self).aliases@, name@)
                    && m@ == name@ && *final(self) == *old(self),
                Err(_) => false,
            },
    {
        match self.find_index(name) {
            Some(i) => {
                let a = self.aliases.remove(i);
                Ok(a)
            },
            None => Err(AlxError::AliasNotFound(String::from_str(name))),
        }
    }

    /// Every record, in catalog order.
    pub fn list(&self) -> (r: &Vec<Alias>)
        ensures
            r == &self.aliases,
    {
        &self.aliases
    }

    /// Copies of the records in the given group, in catalog order.
    pub fn list_by_group(&self, group: &str) -> (r: Vec<Alias>)
        ensures
            r@ == self.aliases@.filter(|a: Alias| in_group(a, group@)),
    {
        proof {
            reveal(Seq::filter);
            assert(self.aliases@.take(0) =~= Seq::<Alias>::empty());
        }
        let mut r: Vec<Alias> = Vec::new();
        let mut i: usize = 0;
        while i < self.aliases.len()
            invariant
                i <= self.aliases@.len(),
                r@ == self.aliases@.take(i as int).filter(|a: Alias| in_group(a, group@)),
            decreases self.aliases@.len() - i,
        {
            let a = &self.aliases[i];
            let matches_group = match &a.group {
                Some(x) => str_eq(x.as_str(), group),
                None => false,
            };
            if matches_group {
                r.push(a.clone());
            }
            proof {
                reveal(Seq::filter);
                let pre = self.aliases@.take(i as int);
                assert(self.aliases@.take(i + 1).drop_last() =~= pre);
                assert(self.aliases@.take(i + 1).last() == self.aliases@[i as int]);
            }
            i += 1;
        }
        proof {
            assert(self.aliases@.take(self.aliases@.len() as int) =~= self.aliases@);
        }
        r
    }

    /// Copies of the records a keyword hits, in catalog order: the keyword
    /// as a case-insensitive substring of the name, the command or the
    /// description.
    pub fn search(&self, keyword: &str) -> (r: Vec<Alias>)
        ensures
            r@ == self.aliases@.filter(|a: Alias| search_matches(a, keyword@)),
    {
        proof {
            reveal(Seq::filter);
            assert(self.aliases@.take(0) =~= Seq::<Alias>::empty());
        }
        let kl = to_lower(keyword);
        let mut r: Vec<Alias> = Vec::new();
        let mut i: usize = 0;
        while i < self.aliases.len()
            invariant
                i <= self.aliases@.len(),
                kl@ == lower_of(keyword@),
                r@ == self.aliases@.take(i as int).filter(|a: Alias| search_matches(a, keyword@)),
            decreases self.aliases@.len() - i,
        {
            let a = &self.aliases[i];
            let nl = to_lower(a.name.as_str());
            let cl = to_lower(a.command.as_str());
            let hit = str_contains(nl.as_str(), kl.as_str()) || str_contains(
                cl.as_str(),
                kl.as_str(),
            ) || (match &a.description {
                Some(d) => {
                    let dl = to_lower(d.as_str());
                    str_contains(dl.as_str(), kl.as_str())
                },
                None => false,
            });
            if hit {
                r.push(a.clone());
            }
            proof {
                reveal(Seq::filter);
                let pre = self.aliases@.take(i as int);
                assert(self.aliases@.take(i + 1).drop_last() =~= pre);
                assert(self.aliases@.take(i + 1).last() == self.aliases@[i as int]);
            }
            i += 1;
        }
        proof {
            assert(self.aliases@.take(self.aliases@.len() as int) =~= self.aliases@);
        }
        r
    }

    /// The distinct group names in use, sorted ascending: every listed name
    /// is some record's group, and every record's group is listed.
    pub fn groups(&self) -> (r: Vec<String>)
        ensures
            sorted_distinct(strings_view(r@)),
            forall|k: int|
                0 <= k < r@.len() ==> has_group(self.aliases@, #[trigger] strings_view(r@)[k]),
            forall|k: int|
                0 <= k < self.aliases@.len() ==> (match (#[trigger] self.aliases@[k]).group {
                    Some(g) => strings_view(r@).contains(g@),
                    None => true,
                }),
    {
        let mut r: Vec<String> = Vec::new();
        let mut i: usize = 0;
        while i < self.aliases.len()
            invariant
                i <= self.aliases@.len(),
                sorted_distinct(strings_view(r@)),
                forall|k: int|
                    0 <= k < r@.len() ==> has_group(self.aliases@, #[trigger] strings_view(r@)[k]),
                forall|k: int|
                    0 <= k < i ==> (match (#[trigger] self.aliases@[k]).group {
                        Some(g) => strings_view(r@).contains(g@),
                        None => true,
                    }),
            decreases self.aliases@.len() - i,
        {
            let a = &self.aliases[i];
            match &a.group {
                Some(g) => {
                    if !contains_string(&r, g.as_str()) {
                        let idx = sorted_insert_pos(&r, g.as_str());
                        let ghost old_r = r@;
                        r.insert(idx, g.clone());
                        proof {
                            let gs = strings_view(r@);
                            let old_gs = strings_view(old_r);
                            assert(gs =~= old_gs.insert(idx as int, g@)) by {
                                old_gs.insert_ensures(idx as int, g@);
                                assert(forall|k: int|
                                    0 <= k < gs.len() ==> #[trigger] gs[k] == r@[k]@);
                            }
                            old_gs.insert_ensures(idx as int, g@);
                            assert(in_group(self.aliases@[i as int], g@));
                            lemma_sorted_distinct_insert(old_gs, idx as int, g@);
                            assert forall|x: Seq<char>|
                                old_gs.contains(x) implies #[trigger] gs.contains(x) by {
                                let k = choose|k: int|
                                    0 <= k < old_gs.len() && old_gs[k] == x;
                                if k < idx {
                                    assert(gs[k] == x);
                                } else {
                                    assert(gs[k + 1] == x);
                                }
                            }
                            assert(gs.contains(g@)) by {
                                assert(gs[idx as int] == g@);
                            }
                        }
                    }
                },
                None => {},
            }
            i += 1;
        }
        r
    }

    /// Rewrite the first record with this name: each `Some` argument
    /// replaces the matching field, the name and creation instant stay, and
    /// the update instant moves to now. An error names the missing alias and
    /// leaves the catalog unchanged.
    pub fn edit(
        &mut self,
        name: &str,
        command: Option<String>,
        description: Option<String>,
        group: Option<String>,
    ) -> (r: Result<(), AlxError>)
        ensures
            match r {
                Ok(()) => exists|i: int|
                    {
                        &&& 0 <= i < old(self).aliases@.len()
                        &&& (#[trigger] old(self).aliases@[i]).name@ == name@
                        &&& forall|k: int|
                            0 <= k < i ==> (#[trigger] old(self).aliases@[k]).name@ != name@
                        &&& final(self).aliases@.len() == old(self).aliases@.len()
                        &&& forall|k: int|
                            0 <= k < old(self).aliases@.len() && k != i
                                ==> final(self).aliases@[k] == old(self).aliases@[k]
                        &&& final(self).aliases@[i].name == old(self).aliases@[i].name
                        &&& final(self).aliases@[i].command == (match command {
                            Some(c) => c,
                            None => old(self).aliases@[i].command,
                        })
                        &&& final(self).aliases@[i].description == (match description {
                            Some(d) => Some(d),
                            None => old(self).aliases@[i].description,
                        })
                        &&& final(self).aliases@[i].group == (match group {
                            Some(g) => Some(g),
                            None => old(self).aliases@[i].group,
                        })
                        &&& final(self).aliases@[i].created_at == old(self).aliases@[i].created_at
                    },
                Err(AlxError::AliasNotFound(m)) => !contains_name(old(self).aliases@, name@)
                    && m@ == name@ && *final(self) == *old(self),
                Err(_) => false,
            },
    {
        let i = match self.find_index(name) {
            Some(i) => i,
            None => {
                return Err(AlxError::AliasNotFound(String::from_str(name)));
            },
        };
        let mut a = self.aliases.remove(i);
        match command {
            Some(c) => a.update_command(c),
            None => {},
        }
        match description {
            Some(d) => {
                a.description = Some(d);
                a.updated_at = crate::alias::now_timestamp();
            },
            None => {},
        }
        match group {
            Some(g) => {
                a.group = Some(g);
                a.updated_at = crate::alias::now_timestamp();
            },
            None => {},
        }
        proof {
            assert(old(self).aliases@.remove(i as int).insert(i as int, a) =~= old(
                self,
            ).aliases@.update(i as int, a));
        }
        self.aliases.insert(i, a);
        Ok(())
    }

    /// Remove each named record in turn; the result counts the removals that
    /// found their record and carries one not-found error per missing name,
    /// in request order.
    pub fn remove_many(&mut self, names: &Vec<String>) -> (r: (usize, Vec<AlxError>))
        ensures
            final(self).aliases@ == remove_names(old(self).aliases@, strings_view(names@)),
            r.0 == removed_count(old(self).aliases@, strings_view(names@)),
            ({
                let missing = missing_names(old(self).aliases@, strings_view(names@));
                r.1@.len() == missing.len() && forall|k: int|
                    0 <= k < missing.len() ==> (#[trigger] r.1@[k] matches AlxError::AliasNotFound(
                        m,
                    ) && m@ == missing[k])
            }),
    {
        let ghost ns = strings_view(names@);
        let ghost s0 = self.aliases@;
        let mut count: usize = 0;
        let mut errs: Vec<AlxError> = Vec::new();
        let mut j: usize = 0;
        proof {
            assert(ns.skip(0) =~= ns);
            assert(not_found_msgs(Seq::empty()) =~= Seq::<Seq<char>>::empty());
        }
        while j < names.len()
            invariant
                j <= names@.len(),
                ns == strings_view(names@),
                count <= j,
                remove_names(self.aliases@, ns.skip(j as int)) == remove_names(s0, ns),
                count + removed_count(self.aliases@, ns.skip(j as int)) == removed_count(s0, ns),
                not_found_msgs(errs@) + missing_names(self.aliases@, ns.skip(j as int))
                    == missing_names(s0, ns),
                forall|k: int|
                    0 <= k < errs@.len() ==> (#[trigger] errs@[k] matches AlxError::AliasNotFound(
                        m,
                    ) && m@ == not_found_msgs(errs@)[k]),
            decreases names@.len() - j,
        {
            let ghost suf = ns.skip(j as int);
            let ghost cur = self.aliases@;
            proof {
                assert(suf.len() > 0);
                assert(suf.first() == ns[j as int]);
                assert(ns[j as int] == names@[j as int]@);
                assert(suf.drop_first() =~= ns.skip(j + 1));
            }
            match self.remove(names[j].as_str()) {
                Ok(_) => {
                    count += 1;
                    proof {
                        let i = choose|i: int|
                            {
                                &&& 0 <= i < cur.len()
                                &&& (#[trigger] cur[i]).name@ == names@[j as int]@
                                &&& forall|k: int|
                                    0 <= k < i ==> (#[trigger] cur[k]).name@ != names@[j as int]@
                                &&& self.aliases@ == cur.remove(i)
                            };
                        lemma_remove_first_at(cur, names@[j as int]@, i);
                        assert(contains_name(cur, suf.first()));
                    }
                },
                Err(e) => {
                    let ghost old_errs = errs@;
                    errs.push(e);
                    proof {
                        lemma_remove_first_absent(cur, names@[j as int]@);
                        assert(not_found_msgs(errs@) =~= not_found_msgs(old_errs).push(
                            names@[j as int]@,
                        ));
                        assert(not_found_msgs(errs@) + missing_names(
                            self.aliases@,
                            ns.skip(j + 1),
                        ) =~= missing_names(s0, ns));
                    }
                },
            }
            j += 1;
        }
        proof {
            assert(ns.skip(ns.len() as int) =~= Seq::<Seq<char>>::empty());
            assert(not_found_msgs(errs@) + Seq::<Seq<char>>::empty() =~= not_found_msgs(errs@));
        }
        (count, errs)
    }

    /// Merge whole records, as an import does: a record whose name is taken
    /// is skipped, and a name inside the batch blocks its later duplicates.
    /// The result counts (added, skipped).
    pub fn import_records(&mut self, records: Vec<Alias>) -> (r: (usize, usize))
        ensures
            final(self).aliases@ == merge_records(old(self).aliases@, records@),
            r.0 == merge_added(old(self).aliases@, records@),
            r.0 + r.1 == records@.len(),
    {
        let ghost xs = records@;
        let ghost s0 = self.aliases@;
        let mut added: usize = 0;
        let mut skipped: usize = 0;
        let mut i: usize = 0;
        proof {
            assert(xs.skip(0) =~= xs);
        }
        while i < records.len()
            invariant
                i <= records@.len(),
                xs == records@,
                added + skipped == i,
                merge_records(self.aliases@, xs.skip(i as int)) == merge_records(s0, xs),
                added + merge_added(self.aliases@, xs.skip(i as int)) == merge_added(s0, xs),
            decreases records@.len() - i,
        {
            let ghost suf = xs.skip(i as int);
            proof {
                assert(suf.len() > 0);
                assert(suf.first() == xs[i as int]);
                assert(suf.drop_first() =~= xs.skip(i + 1));
            }
            let a = records[i].clone();
            if self.contains(a.name.as_str()) {
                skipped += 1;
            } else {
                self.aliases.push(a);
                added += 1;
            }
            i += 1;
        }
        proof {
            assert(xs.skip(xs.len() as int) =~= Seq::<Alias>::empty());
        }
        (added, skipped)
    }

    /// Merge migrated (name, command) pairs: a pair whose name is taken is
    /// skipped, the rest become fresh records in pair order, with no
    /// description and no group. The result counts (added, skipped).
    pub fn merge_pairs(&mut self, pairs: &Vec<(String, String)>) -> (r: (usize, usize))
        ensures
            recs_nc(final(self).aliases@) == merge_nc(recs_nc(old(self).aliases@), pairs_view(pairs@)),
            r.0 == merge_nc_added(recs_nc(old(self).aliases@), pairs_view(pairs@)),
            r.0 + r.1 == pairs@.len(),
            final(self).aliases@.len() == old(self).aliases@.len() + r.0,
            forall|k: int|
                0 <= k < old(self).aliases@.len() ==> #[trigger] final(self).aliases@[k]
                    == old(self).aliases@[k],
            forall|k: int|
                old(self).aliases@.len() <= k < final(self).aliases@.len()
                    ==> (#[trigger] final(self).aliases@[k]).description is None
                    && final(self).aliases@[k].group is None,
    {
        let ghost ps = pairs_view(pairs@);
        let ghost s0 = self.aliases@;
        let mut added: usize = 0;
        let mut skipped: usize = 0;
        let mut i: usize = 0;
        proof {
            assert(ps.skip(0) =~= ps);
        }
        while i < pairs.len()
            invariant
                i <= pairs@.len(),
                ps == pairs_view(pairs@),
                added + skipped == i,
                self.aliases@.len() == s0.len() + added,
                forall|k: int| 0 <= k < s0.len() ==> #[trigger] self.aliases@[k] == s0[k],
                forall|k: int|
                    s0.len() <= k < self.aliases@.len() ==> (#[trigger] self.aliases@[k]).description
                        is None && self.aliases@[k].group is None,
                merge_nc(recs_nc(self.aliases@), ps.skip(i as int)) == merge_nc(recs_nc(s0), ps),
                added + merge_nc_added(recs_nc(self.aliases@), ps.skip(i as int)) == merge_nc_added(
                    recs_nc(s0),
                    ps,
                ),
            decreases pairs@.len() - i,
        {
            let ghost suf = ps.skip(i as int);
            let ghost cur = self.aliases@;
            proof {
                assert(suf.len() > 0);
                assert(suf.first() == ps[i as int]);
                assert(ps[i as int] == (pairs@[i as int].0@, pairs@[i as int].1@));
                assert(suf.drop_first() =~= ps.skip(i + 1));
                lemma_nc_contains(cur, pairs@[i as int].0@);
            }
            let p = &pairs[i];
            if self.contains(p.0.as_str()) {
                skipped += 1;
            } else {
                let a = crate::alias::Alias::new(p.0.clone(), p.1.clone());
                self.aliases.push(a);
                proof {
                    assert(recs_nc(self.aliases@) =~= recs_nc(cur).push(suf.first()));
                }
                added += 1;
            }
            i += 1;
        }
        proof {
            assert(ps.skip(ps.len() as int) =~= Seq::<(Seq<char>, Seq<char>)>::empty());
        }
        (added, skipped)
    }
}

impl Default for AliasStore {
    /// An empty catalog.
    fn default() -> (r: AliasStore)
        ensures
            r.aliases@.len() == 0,
    {
        AliasStore::new()
    }
}

/// The payloads of a sequence of not-found errors.
pub open spec fn not_found_msgs(es: Seq<AlxError>) -> Seq<Seq<char>> {
    es.map_values(
        |e: AlxError|
            match e {
                AlxError::AliasNotFound(m) => m@,
                _ => Seq::empty(),
            },
    )
}

/// Inserting at a position found by `sorted_insert_pos` keeps the sequence
/// ascending and duplicate-free.
proof fn lemma_sorted_distinct_insert(gs: Seq<Seq<char>>, idx: int, g: Seq<char>)
    requires
        sorted_distinct(gs),
        0 <= idx <= gs.len(),
        forall|k: int| 0 <= k < idx ==> !lex_le(g, #[trigger] gs[k]),
        idx < gs.len() ==> lex_le(g, gs[idx]),
        forall|k: int| 0 <= k < gs.len() ==> #[trigger] gs[k] != g,
    ensures
        sorted_distinct(gs.insert(idx, g)),
{
    gs.insert_ensures(idx, g);
    let ns = gs.insert(idx, g);
    assert forall|k: int| 0 <= k < ns.len() - 1 implies lex_le(#[trigger] ns[k], ns[k + 1]) by {
        if k + 1 < idx {
            assert(ns[k] == gs[k] && ns[k + 1] == gs[k + 1]);
        } else if k + 1 == idx {
            assert(ns[k] == gs[k] && ns[k + 1] == g);
            lemma_lex_le_total(g, gs[k]);
        } else if k == idx {
            assert(ns[k] == g && ns[k + 1] == gs[k]);
        } else {
            assert(ns[k] == gs[k - 1] && ns[k + 1] == gs[k]);
        }
    }
    assert forall|i: int, j: int| 0 <= i < j < ns.len() implies ns[i] != ns[j] by {
        if i == idx {
            assert(ns[j] == gs[j - 1]);
        } else if j == idx {
            assert(ns[i] == gs[i]);
        } else if i < idx && j > idx {
            assert(ns[i] == gs[i] && ns[j] == gs[j - 1]);
        } else if j < idx {
            assert(ns[i] == gs[i] && ns[j] == gs[j]);
        } else {
            assert(ns[i] == gs[i - 1] && ns[j] == gs[j - 1]);
        }
    }
}

/// The position a new name takes in an ascending vector: the first index
/// whose entry is not below the name.
fn sorted_insert_pos(v: &Vec<String>, g: &str) -> (idx: usize)
    ensures
        idx <= v@.len(),
        forall|k: int| 0 <= k < idx ==> !lex_le(g@, #[trigger] strings_view(v@)[k]),
        idx < v@.len() ==> lex_le(g@, strings_view(v@)[idx as int]),
{
    let mut idx: usize = 0;
    while idx < v.len() && !str_le(g, v[idx].as_str())
        invariant
            idx <= v@.len(),
            forall|k: int| 0 <= k < idx ==> !lex_le(g@, #[trigger] strings_view(v@)[k]),
        decreases v@.len() - idx,
    {
        idx += 1;
    }
    idx
}

/// Whether a string with these characters is in the vector.
fn contains_string(v: &Vec<String>, s: &str) -> (r: bool)
    ensures
        r == strings_view(v@).contains(s@),
{
    let mut i: usize = 0;
    while i < v.len()
        invariant
            i <= v@.len(),
            forall|k: int| 0 <= k < i ==> #[trigger] v@[k]@ != s@,
        decreases v@.len() - i,
    {
        if str_eq(v[i].as_str(), s) {
            proof {
                assert(strings_view(v@)[i as int] == s@);
            }
            return true;
        }
        i += 1;
    }
    proof {
        assert(forall|k: int|
            0 <= k < strings_view(v@).len() ==> #[trigger] strings_view(v@)[k] == v@[k]@);
    }
    false
}

} // verus!
