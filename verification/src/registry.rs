//! The registry of known vaults: each entry names a vault file, its cipher
//! kind and when it was created and last opened. Names and paths are unique.

use vstd::prelude::*;
use crate::error::{EnvlyError, is_validation_err, is_vault_err};
use crate::ids::{Timestamp, utc_now};
use crate::crypto::CipherKind;
use crate::seqs::{
    Identified, Labelled, has_label, has_label_except, first_with_ident, pairwise, labels_differ,
    labels_unique, lemma_first_with_ident, lemma_push_labels_unique, position_of, any_labelled,
    any_labelled_except,
};
use crate::models::{between, idents_unique, only_at};
use crate::paths::{path_eq, same_path};

verus! {

/// A registered vault.
#[derive(Debug, Clone)]
pub struct VaultEntry {
    pub id: u128,
    pub name: String,
    pub path: String,
    pub cipher_kind: CipherKind,
    pub created_at: Timestamp,
    pub last_accessed: Option<Timestamp>,
}

impl Identified for VaultEntry {
    open spec fn ident(&self) -> u128 {
        self.id
    }

    fn get_ident(&self) -> (r: u128) {
        self.id
    }
}

impl Labelled for VaultEntry {
    open spec fn label(&self) -> Seq<char> {
        self.name@
    }

    fn get_label(&self) -> (r: &String) {
        &self.name
    }
}

/// The list of registered vaults.
#[derive(Debug, Clone)]
pub struct VaultRegistry {
    pub vaults: Vec<VaultEntry>,
}

/// Some entry of `s` has a path equal to `p`.
pub open spec fn has_path(s: Seq<VaultEntry>, p: Seq<char>) -> bool {
    exists|i: int| 0 <= i < s.len() && path_eq((#[trigger] s[i]).path@, p)
}

/// Two entries have paths that differ.
pub open spec fn paths_differ() -> spec_fn(VaultEntry, VaultEntry) -> bool {
    |a: VaultEntry, b: VaultEntry| !path_eq(a.path@, b.path@)
}

/// The entries of `s` whose flag in `flags` is `want`, in their order.
pub open spec fn select(s: Seq<VaultEntry>, flags: Seq<bool>, want: bool) -> Seq<VaultEntry>
    decreases s.len(),
{
    if s.len() == 0 || flags.len() != s.len() {
        Seq::empty()
    } else if flags.last() == want {
        select(s.drop_last(), flags.drop_last(), want).push(s.last())
    } else {
        select(s.drop_last(), flags.drop_last(), want)
    }
}

/// "A vault named '`<name>`' already exists".
pub open spec fn msg_name_taken(name: Seq<char>) -> Seq<char> {
    "A vault named '"@ + name + "' already exists"@
}

/// "A vault at path '`<path>`' is already registered".
pub open spec fn msg_path_taken(path: Seq<char>) -> Seq<char> {
    "A vault at path '"@ + path + "' is already registered"@
}

/// An entry with `last_accessed` set to `at`, the rest as in `e`.
pub open spec fn accessed_at(e: VaultEntry, at: Timestamp) -> VaultEntry {
    VaultEntry { last_accessed: Some(at), ..e }
}

impl Default for VaultRegistry {
    /// An empty registry.
    fn default() -> (r: Self)
        ensures
            r.vaults@ == Seq::<VaultEntry>::empty(),
    {
        VaultRegistry { vaults: Vec::new() }
    }
}

impl VaultRegistry {
    /// Names are unique and no two paths are the same path.
    pub open spec fn consistent(&self) -> bool {
        labels_unique(self.vaults@) && pairwise(self.vaults@, paths_differ())
    }

    /// An empty registry.
    pub fn new() -> (r: Self)
        ensures
            r.vaults@ == Seq::<VaultEntry>::empty(),
            r.consistent(),
    {
        VaultRegistry { vaults: Vec::new() }
    }

    /// Whether some entry's path is the same path as `p`.
    fn any_path(&self, p: &String) -> (b: bool)
        ensures
            b == has_path(self.vaults@, p@),
    {
        let mut i: usize = 0;
        while i < self.vaults.len()
            invariant
                i <= self.vaults@.len(),
                forall|j: int| 0 <= j < i ==> !path_eq((#[trigger] self.vaults@[j]).path@, p@),
            decreases self.vaults.len() - i,
        {
            if same_path(self.vaults[i].path.as_str(), p.as_str()) {
                return true;
            }
            i = i + 1;
        }
        false
    }

    /// The first entry with identifier `id`.
    pub fn find_entry(&self, id: u128) -> (r: Option<&VaultEntry>)
        ensures
            match first_with_ident(self.vaults@, id) {
                Some(i) => r matches Some(e) && *e == self.vaults@[i],
                None => r is None,
            },
    {
        match position_of(&self.vaults, id) {
            Some(i) => Some(&self.vaults[i]),
            None => None,
        }
    }

    /// The first entry with identifier `id`, to be changed in place.
    pub fn find_entry_mut(&mut self, id: u128) -> (r: Option<&mut VaultEntry>)
        ensures
            match first_with_ident(old(self).vaults@, id) {
                Some(i) => r matches Some(e) && *e == old(self).vaults@[i] && final(self).vaults@
                    == old(self).vaults@.update(i, *final(e)),
                None => r is None && *final(self) == *old(self),
            },
    {
        match position_of(&self.vaults, id) {
            Some(i) => Some(&mut self.vaults[i]),
            None => None,
        }
    }

    /// Appends `entry` if no entry has its name or its path.
    pub fn add_entry(&mut self, entry: VaultEntry) -> (r: Result<(), EnvlyError>)
        ensures
            has_label(old(self).vaults@, entry.name@) ==> is_validation_err(
                r,
                msg_name_taken(entry.name@),
            ),
            !has_label(old(self).vaults@, entry.name@) && has_path(old(self).vaults@, entry.path@)
                ==> is_validation_err(r, msg_path_taken(entry.path@)),
            r is Ok <==> !has_label(old(self).vaults@, entry.name@) && !has_path(
                old(self).vaults@,
                entry.path@,
            ),
            r is Ok ==> final(self).vaults@ == old(self).vaults@.push(entry),
            r is Err ==> *final(self) == *old(self),
            old(self).consistent() ==> final(self).consistent(),
    {
        if any_labelled(&self.vaults, &entry.name) {
            return Err(EnvlyError::Validation(between("A vault named '", entry.name.as_str(), "' already exists")));
        }
        if self.any_path(&entry.path) {
            return Err(
                EnvlyError::Validation(
                    between("A vault at path '", entry.path.as_str(), "' is already registered"),
                ),
            );
        }
        let ghost s = self.vaults@;
        self.vaults.push(entry);
        proof {
            if pairwise(s, labels_differ::<VaultEntry>()) && pairwise(s, paths_differ()) {
                lemma_push_labels_unique(s, entry);
                assert forall|i: int, j: int| 0 <= i < j < self.vaults@.len() implies (
                paths_differ())(#[trigger] self.vaults@[i], #[trigger] self.vaults@[j]) by {
                    if j == s.len() {
                        assert(self.vaults@[i] == s[i]);
                        assert(!path_eq(s[i].path@, entry.path@));
                    } else {
                        assert(self.vaults@[i] == s[i] && self.vaults@[j] == s[j]);
                    }
                }
            }
        }
        Ok(())
    }

    /// Removes and returns the first entry with identifier `id`.
    pub fn remove_entry(&mut self, id: u128) -> (r: Result<VaultEntry, EnvlyError>)
        ensures
            match first_with_ident(old(self).vaults@, id) {
                Some(i) => r matches Ok(e) && e == old(self).vaults@[i] && final(self).vaults@
                    == old(self).vaults@.remove(i),
                None => is_vault_err(r, "Vault entry not found"@) && *final(self) == *old(self),
            },
            old(self).consistent() ==> final(self).consistent(),
    {
        proof {
            reveal_strlit("Vault entry not found");
        }
        let i = match position_of(&self.vaults, id) {
            Some(i) => i,
            None => {
                return Err(EnvlyError::Vault(String::from_str("Vault entry not found")));
            },
        };
        let ghost s = self.vaults@;
        let e = self.vaults.remove(i);
        proof {
            let t = self.vaults@;
            assert forall|a: int, b: int| 0 <= a < b < t.len() implies #[trigger] t[a] == s[if a < i {
                a
            } else {
                a + 1
            }] && #[trigger] t[b] == s[if b < i {
                b
            } else {
                b + 1
            }] by {}
            if old(self).consistent() {
                assert forall|a: int, b: int| 0 <= a < b < t.len() implies (labels_differ::<
                    VaultEntry,
                >())(#[trigger] t[a], #[trigger] t[b]) by {
                    let a2 = if a < i { a } else { a + 1 };
                    let b2 = if b < i { b } else { b + 1 };
                    assert(t[a] == s[a2] && t[b] == s[b2]);
                    assert((labels_differ::<VaultEntry>())(s[a2], s[b2]));
                }
                assert forall|a: int, b: int| 0 <= a < b < t.len() implies (paths_differ())(
                    #[trigger] t[a],
                    #[trigger] t[b],
                ) by {
                    let a2 = if a < i { a } else { a + 1 };
                    let b2 = if b < i { b } else { b + 1 };
                    assert(t[a] == s[a2] && t[b] == s[b2]);
                    assert((paths_differ())(s[a2], s[b2]));
                }
            }
        }
        Ok(e)
    }

    /// Renames the first entry with identifier `id`, unless another entry
    /// already has the new name.
    pub fn rename_entry(&mut self, id: u128, new_name: String) -> (r: Result<(), EnvlyError>)
        ensures
            has_label_except(old(self).vaults@, new_name@, id) ==> is_validation_err(
                r,
                msg_name_taken(new_name@),
            ),
            !has_label_except(old(self).vaults@, new_name@, id) ==> match first_with_ident(
                old(self).vaults@,
                id,
            ) {
                Some(i) => r is Ok && final(self).vaults@ == old(self).vaults@.update(
                    i,
                    VaultEntry { name: new_name, ..old(self).vaults@[i] },
                ),
                None => is_vault_err(r, "Vault entry not found"@),
            },
            r is Err ==> *final(self) == *old(self),
            old(self).consistent() && idents_unique(old(self).vaults@) ==> final(self).consistent(),
    {
        proof {
            reveal_strlit("Vault entry not found");
        }
        if any_labelled_except(&self.vaults, &new_name, id) {
            return Err(
                EnvlyError::Validation(between("A vault named '", new_name.as_str(), "' already exists")),
            );
        }
        let i = match position_of(&self.vaults, id) {
            Some(i) => i,
            None => {
                return Err(EnvlyError::Vault(String::from_str("Vault entry not found")));
            },
        };
        let ghost s = self.vaults@;
        let ghost nn = new_name;
        self.vaults[i].name = new_name;
        proof {
            let t = self.vaults@;
            assert(t =~= s.update(i as int, VaultEntry { name: nn, ..s[i as int] }));
            if old(self).consistent() && idents_unique(s) {
                assert forall|a: int, b: int| 0 <= a < b < t.len() implies (labels_differ::<
                    VaultEntry,
                >())(#[trigger] t[a], #[trigger] t[b]) by {
                    if a == i {
                        assert(s[b].ident() != id);
                        assert(t[b] == s[b]);
                    } else if b == i {
                        assert(s[a].ident() != id);
                        assert(t[a] == s[a]);
                    } else {
                        assert(t[a] == s[a] && t[b] == s[b]);
                        assert((labels_differ::<VaultEntry>())(s[a], s[b]));
                    }
                }
                assert forall|a: int, b: int| 0 <= a < b < t.len() implies (paths_differ())(
                    #[trigger] t[a],
                    #[trigger] t[b],
                ) by {
                    assert(t[a].path == s[a].path && t[b].path == s[b].path);
                    assert((paths_differ())(s[a], s[b]));
                }
            }
        }
        Ok(())
    }

    /// Removes the entries whose vault file is gone, given for each entry
    /// whether its file exists, and returns them; the others stay in order.
    pub fn prune_stale(&mut self, exists: &Vec<bool>) -> (stale: Vec<VaultEntry>)
        requires
            exists@.len() == old(self).vaults@.len(),
        ensures
            final(self).vaults@ == select(old(self).vaults@, exists@, true),
            stale@ == select(old(self).vaults@, exists@, false),
            old(self).consistent() ==> final(self).consistent(),
    {
        let ghost s = self.vaults@;
        let mut keep: Vec<VaultEntry> = Vec::new();
        let mut stale: Vec<VaultEntry> = Vec::new();
        let mut rest: Vec<VaultEntry> = Vec::new();
        std::mem::swap(&mut rest, &mut self.vaults);
        let mut i: usize = 0;
        let n = rest.len();
        let ghost f = exists@;
        while rest.len() > 0
            invariant
                n == s.len(),
                f == exists@,
                f.len() == n,
                rest.len() <= n,
                i == n - rest.len(),
                rest@ == s.skip(i as int),
                keep@ == select(s.take(i as int), f.take(i as int), true),
                stale@ == select(s.take(i as int), f.take(i as int), false),
            decreases rest.len(),
        {
            let e = rest.remove(0);
            proof {
                assert(s.take(i + 1).drop_last() =~= s.take(i as int));
                assert(f.take(i + 1).drop_last() =~= f.take(i as int));
                assert(s.take(i + 1).last() == s[i as int]);
                assert(e == s[i as int]);
                assert(rest@ =~= s.skip(i + 1));
            }
            if exists[i] {
                keep.push(e);
            } else {
                stale.push(e);
            }
            i = i + 1;
        }
        proof {
            assert(s.take(n as int) =~= s);
            assert(f.take(n as int) =~= f);
        }
        self.vaults = keep;
        proof {
            if pairwise(s, labels_differ::<VaultEntry>()) && pairwise(s, paths_differ()) {
                lemma_select_pairwise(s, f, true, labels_differ::<VaultEntry>());
                lemma_select_pairwise(s, f, true, paths_differ());
            }
        }
        stale
    }

    /// Sets the time the first entry with identifier `id` was last opened.
    pub fn set_last_accessed(&mut self, id: u128, at: Timestamp)
        ensures
            match first_with_ident(old(self).vaults@, id) {
                Some(i) => final(self).vaults@ == old(self).vaults@.update(
                    i,
                    accessed_at(old(self).vaults@[i], at),
                ),
                None => *final(self) == *old(self),
            },
            old(self).consistent() ==> final(self).consistent(),
    {
        if let Some(i) = position_of(&self.vaults, id) {
            let ghost s = self.vaults@;
            self.vaults[i].last_accessed = Some(at);
            proof {
                let t = self.vaults@;
                assert(t =~= s.update(i as int, accessed_at(s[i as int], at)));
                assert forall|a: int, b: int| 0 <= a < b < t.len() implies #[trigger] t[a].name
                    == s[a].name && #[trigger] t[b].path == s[b].path && t[a].path == s[a].path
                    && t[b].name == s[b].name by {}
                if old(self).consistent() {
                    assert forall|a: int, b: int| 0 <= a < b < t.len() implies (labels_differ::<
                        VaultEntry,
                    >())(#[trigger] t[a], #[trigger] t[b]) by {
                        assert((labels_differ::<VaultEntry>())(s[a], s[b]));
                    }
                    assert forall|a: int, b: int| 0 <= a < b < t.len() implies (paths_differ())(
                        #[trigger] t[a],
                        #[trigger] t[b],
                    ) by {
                        assert((paths_differ())(s[a], s[b]));
                    }
                }
            }
        }
    }

    /// Records that the first entry with identifier `id` was opened now.
    pub fn update_last_accessed(&mut self, id: u128)
        ensures
            match first_with_ident(old(self).vaults@, id) {
                Some(i) => exists|at: Timestamp|
                    final(self).vaults@ == old(self).vaults@.update(
                        i,
                        #[trigger] accessed_at(old(self).vaults@[i], at),
                    ),
                None => *final(self) == *old(self),
            },
            old(self).consistent() ==> final(self).consistent(),
    {
        let now = utc_now();
        self.set_last_accessed(id, now);
        proof {
            if let Some(i) = first_with_ident(old(self).vaults@, id) {
                assert(final(self).vaults@ == old(self).vaults@.update(i, accessed_at(old(self).vaults@[i], now)));
            }
        }
    }
}

/// What is selected of a sequence whose pairs all satisfy `r` satisfies `r` too.
pub proof fn lemma_select_pairwise(
    s: Seq<VaultEntry>,
    f: Seq<bool>,
    want: bool,
    r: spec_fn(VaultEntry, VaultEntry) -> bool,
)
    requires
        f.len() == s.len(),
        pairwise(s, r),
    ensures
        pairwise(select(s, f, want), r),
        forall|x: VaultEntry| select(s, f, want).contains(x) ==> s.contains(x),
    decreases s.len(),
{
    if s.len() > 0 {
        let p = s.drop_last();
        assert forall|i: int, j: int| 0 <= i < j < p.len() implies r(#[trigger] p[i], #[trigger] p[j]) by {
            assert(p[i] == s[i] && p[j] == s[j]);
        }
        lemma_select_pairwise(p, f.drop_last(), want, r);
        let q = select(p, f.drop_last(), want);
        assert forall|x: VaultEntry| q.contains(x) implies p.contains(x) by {}
        if f.last() == want {
            let t = q.push(s.last());
            assert forall|i: int, j: int| 0 <= i < j < t.len() implies r(#[trigger] t[i], #[trigger] t[j]) by {
                if j == q.len() {
                    assert(q.contains(t[i]));
                    let k = choose|k: int| 0 <= k < p.len() && p[k] == t[i];
                    assert(s[k] == t[i]);
                    assert(r(s[k], s[s.len() - 1]));
                } else {
                    assert(t[i] == q[i] && t[j] == q[j]);
                }
            }
            assert forall|x: VaultEntry| t.contains(x) implies s.contains(x) by {
                if x != s.last() {
                    let k = choose|k: int| 0 <= k < t.len() && t[k] == x;
                    assert(q[k] == x);
                    assert(q.contains(x));
                    let m = choose|m: int| 0 <= m < p.len() && p[m] == x;
                    assert(s[m] == x);
                } else {
                    assert(s[s.len() - 1] == x);
                }
            }
        } else {
            assert forall|x: VaultEntry| q.contains(x) implies s.contains(x) by {
                let m = choose|m: int| 0 <= m < p.len() && p[m] == x;
                assert(s[m] == x);
            }
        }
    }
}

} // verus!
