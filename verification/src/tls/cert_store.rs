//! The SNI to certificate map, built from the dynamic config and replaced as
//! a whole on reload.

use super::loader::{files_outcome, load_cert_files, shared_parts, CertFiles, KeyParts};
use crate::problem::{
    first_problem, law_first_problem_is_first, lemma_all_fine, lemma_first_problem_stays,
    lemma_no_first_problem,
};
use crate::text::{
    byte_len, chars_of, has_char, law_lower_changes_capitals_only, len_bytes, lower, owned,
    string_of, to_lower,
};
use crate::types::{CertEntry, GfeError};
use rustls::sign::CertifiedKey;
use std::sync::Arc;
use vstd::hash_map::StringHashMap;
use vstd::prelude::*;
use vstd::slice::slice_subrange;

verus! {

// ---------------------------------------------------------------------------
// The selection rule
// ---------------------------------------------------------------------------

/// Whether a certificate name is a wildcard.
pub open spec fn is_star(name: Seq<char>) -> bool {
    name.len() > 0 && name[0] == '*'
}

/// Whether a host is a single non-empty label followed by the suffix.
pub open spec fn suffix_match(suffix: Seq<char>, host: Seq<char>) -> bool {
    let n = host.len() - suffix.len();
    n > 0 && host.skip(n) == suffix && !host.take(n).contains('.')
}

/// The key bound to an exact name; the last binding counts.
pub open spec fn exact_key(bindings: Seq<(Seq<char>, KeyParts)>, name: Seq<char>) -> Option<
    KeyParts,
>
    decreases bindings.len(),
{
    if bindings.len() == 0 {
        None
    } else if bindings.last().0 == name && !is_star(name) {
        Some(bindings.last().1)
    } else {
        exact_key(bindings.drop_last(), name)
    }
}

/// The number of wildcard bindings.
pub open spec fn star_count(bindings: Seq<(Seq<char>, KeyParts)>) -> nat
    decreases bindings.len(),
{
    if bindings.len() == 0 {
        0
    } else {
        star_count(bindings.drop_last()) + if is_star(bindings.last().0) {
            1nat
        } else {
            0
        }
    }
}

/// Whether binding `i` is a wildcard that covers a host.
pub open spec fn star_covers(
    bindings: Seq<(Seq<char>, KeyParts)>,
    i: int,
    host: Seq<char>,
) -> bool {
    &&& 0 <= i < bindings.len()
    &&& is_star(bindings[i].0)
    &&& suffix_match(bindings[i].0.skip(1), host)
}

/// Whether binding `i` has a longer name than binding `j`, or an equally long
/// one and comes first.
pub open spec fn longer_first(bindings: Seq<(Seq<char>, KeyParts)>, i: int, j: int) -> bool {
    let a = byte_len(bindings[i].0.skip(1));
    let b = byte_len(bindings[j].0.skip(1));
    a > b || (a == b && i < j)
}

/// Whether binding `i` is the wildcard to use for a host: the one with the
/// longest suffix.
pub open spec fn best_star(
    bindings: Seq<(Seq<char>, KeyParts)>,
    i: int,
    host: Seq<char>,
) -> bool {
    &&& star_covers(bindings, i, host)
    &&& forall|j: int|
        j != i && #[trigger] star_covers(bindings, j, host) ==> longer_first(bindings, i, j)
}

/// Whether `r` is the certificate for a server name: that of the exact name,
/// else that of the longest wildcard, else the default.
pub open spec fn answers_sni(
    bindings: Seq<(Seq<char>, KeyParts)>,
    default: Option<KeyParts>,
    sni: Option<Seq<char>>,
    r: Option<KeyParts>,
) -> bool {
    match sni {
        None => r == default,
        Some(s) => {
            let name = lower(s);
            match exact_key(bindings, name) {
                Some(k) => r == Some(k),
                None => if exists|i: int| star_covers(bindings, i, name) {
                    exists|i: int|
                        #[trigger] best_star(bindings, i, name) && r == Some(bindings[i].1)
                } else {
                    r == default
                },
            }
        },
    }
}

// ---------------------------------------------------------------------------
// What a configuration binds
// ---------------------------------------------------------------------------

/// The outcome of loading the certificate of entry `i`.
pub open spec fn entry_outcome(entries: Seq<CertEntry>, files: Seq<CertFiles>, i: int) -> Result<
    (KeyParts, i64),
    Seq<char>,
> {
    files_outcome(entries[i].cert_file@, entries[i].key_file@, files[i])
}

/// Whether one of the first `n` entries is a default.
pub open spec fn default_among(entries: Seq<CertEntry>, n: int) -> bool {
    exists|i: int| 0 <= i < n && (#[trigger] entries[i]).default
}

/// What is wrong with entry `i`: its certificate does not load, or it is a
/// second default.
pub open spec fn entry_problem(entries: Seq<CertEntry>, files: Seq<CertFiles>, i: int) -> Option<
    Seq<char>,
> {
    match entry_outcome(entries, files, i) {
        Err(e) => Some("certificate error: "@ + e),
        Ok(_) => if entries[i].default && default_among(entries, i) {
            Some("validation error: more than one default certificate configured"@)
        } else {
            None
        },
    }
}

/// The first problem of a list of entries.
pub open spec fn store_problem(entries: Seq<CertEntry>, files: Seq<CertFiles>) -> Option<
    Seq<char>,
> {
    first_problem(|i: int| entry_problem(entries, files, i), entries.len())
}

/// The names of an entry in lower case, each with the key.
pub open spec fn entry_bindings(sni: Seq<String>, key: KeyParts) -> Seq<
    (Seq<char>, KeyParts),
> {
    sni.map_values(|s: String| (lower(s@), key))
}

/// The names bound by the first `n` entries, in order.
pub open spec fn bindings_of(entries: Seq<CertEntry>, files: Seq<CertFiles>, n: nat) -> Seq<
    (Seq<char>, KeyParts),
>
    decreases n,
{
    if n == 0 {
        Seq::empty()
    } else {
        let i = n - 1;
        bindings_of(entries, files, i as nat) + entry_bindings(
            entries[i].sni@,
            entry_outcome(entries, files, i)->Ok_0.0,
        )
    }
}

/// The key of the default entry among the first `n`.
pub open spec fn default_of(entries: Seq<CertEntry>, files: Seq<CertFiles>, n: nat) -> Option<
    KeyParts,
>
    decreases n,
{
    if n == 0 {
        None
    } else if entries[n - 1].default {
        Some(entry_outcome(entries, files, n - 1)->Ok_0.0)
    } else {
        default_of(entries, files, (n - 1) as nat)
    }
}

/// The expiry of each name of an entry; the default goes under `<default>`.
pub open spec fn entry_expiries(entry: CertEntry, not_after: i64) -> Seq<(Seq<char>, i64)> {
    (if entry.default {
        seq![("<default>"@, not_after)]
    } else {
        Seq::empty()
    }) + entry.sni@.map_values(|s: String| (lower(s@), not_after))
}

/// The expiries of the first `n` entries, in order.
pub open spec fn expiries_of(entries: Seq<CertEntry>, files: Seq<CertFiles>, n: nat) -> Seq<
    (Seq<char>, i64),
>
    decreases n,
{
    if n == 0 {
        Seq::empty()
    } else {
        let i = n - 1;
        expiries_of(entries, files, i as nat) + entry_expiries(
            entries[i],
            entry_outcome(entries, files, i)->Ok_0.1,
        )
    }
}

/// The texts and values of a list of expiries.
pub open spec fn expiry_view(expiries: Seq<(String, i64)>) -> Seq<(Seq<char>, i64)> {
    expiries.map_values(|e: (String, i64)| (e.0@, e.1))
}

// ---------------------------------------------------------------------------
// The store
// ---------------------------------------------------------------------------

/// An immutable certificate store resolving an SNI name to signing material.
pub struct CertStore {
    exact: StringHashMap<Arc<CertifiedKey>>,
    /// `(suffix, key)` for `*.suffix` patterns; suffix keeps the leading dot
    /// (`.example.org`). Ordered longest-suffix-first.
    wildcard: Vec<(String, Arc<CertifiedKey>)>,
    default: Option<Arc<CertifiedKey>>,
    /// `(sni-display-name, not_after_unix)` pairs for expiry metrics.
    expiries: Vec<(String, i64)>,
    /// The bound names, in order.
    names: Ghost<Seq<(Seq<char>, KeyParts)>>,
    /// The place among `names` of each of `wildcard`.
    origin: Ghost<Seq<int>>,
}

/// The stored names are those of the bindings.
spec fn exact_holds(
    exact: Map<Seq<char>, Arc<CertifiedKey>>,
    names: Seq<(Seq<char>, KeyParts)>,
) -> bool {
    forall|n: Seq<char>|
        match exact_key(names, n) {
            Some(k) => #[trigger] exact.contains_key(n) && shared_parts(exact[n]) == k,
            None => !exact.contains_key(n),
        }
}

/// The stored wildcards are those of the bindings, longest suffix first.
spec fn wildcard_holds(
    wildcard: Seq<(String, Arc<CertifiedKey>)>,
    origin: Seq<int>,
    names: Seq<(Seq<char>, KeyParts)>,
) -> bool {
    &&& origin.len() == wildcard.len()
    &&& wildcard.len() == star_count(names)
    &&& forall|k: int|
        0 <= k < wildcard.len() ==> {
            let i = #[trigger] origin[k];
            &&& 0 <= i < names.len()
            &&& is_star(names[i].0)
            &&& wildcard[k].0@ == names[i].0.skip(1)
            &&& shared_parts(wildcard[k].1) == names[i].1
        }
    &&& forall|i: int|
        0 <= i < names.len() && is_star((#[trigger] names[i]).0) ==> origin.contains(i)
    &&& forall|j: int, k: int|
        0 <= j < k < wildcard.len() ==> longer_first(
            names,
            #[trigger] origin[j],
            #[trigger] origin[k],
        )
}

/// The parts of an optional shared key.
pub open spec fn inner(k: Option<Arc<CertifiedKey>>) -> Option<KeyParts> {
    match k {
        Some(a) => Some(shared_parts(a)),
        None => None,
    }
}

impl CertStore {
    #[verifier::type_invariant]
    spec fn inv(self) -> bool {
        &&& exact_holds(self.exact@, self.names@)
        &&& wildcard_holds(self.wildcard@, self.origin@, self.names@)
    }

    /// The bound names with the parts of their keys, in the order of the configuration.
    pub closed spec fn bindings(self) -> Seq<(Seq<char>, KeyParts)> {
        self.names@
    }

    /// The key for connections whose name matches nothing.
    pub closed spec fn default_key(self) -> Option<KeyParts> {
        inner(self.default)
    }

    /// The expiry of each bound name.
    pub closed spec fn expiry_list(self) -> Seq<(Seq<char>, i64)> {
        expiry_view(self.expiries@)
    }

    /// The names that are bound exactly.
    pub open spec fn exact_names(self) -> Set<Seq<char>> {
        Set::new(|n: Seq<char>| exact_key(self.bindings(), n) is Some)
    }

    /// The number of exact names, wildcards and the default, as far as a
    /// `usize` counts.
    pub open spec fn binding_count(self) -> nat {
        let n = self.exact_names().len() + star_count(self.bindings()) + if self.default_key()
            is Some {
            1nat
        } else {
            0
        };
        if n <= usize::MAX {
            n
        } else {
            usize::MAX as nat
        }
    }

    /// Build a certificate store from the dynamic config's certificate
    /// entries and the contents of the files they name.
    pub fn build(entries: &[CertEntry], files: &[CertFiles]) -> (r: Result<Self, GfeError>)
        requires
            files@.len() == entries@.len(),
        ensures
            match r {
                Ok(s) => {
                    &&& store_problem(entries@, files@) is None
                    &&& s.bindings() == bindings_of(entries@, files@, entries@.len())
                    &&& s.default_key() == default_of(entries@, files@, entries@.len())
                    &&& s.expiry_list() == expiries_of(entries@, files@, entries@.len())
                },
                Err(e) => {
                    &&& e is Certificate || e is Validation
                    &&& store_problem(entries@, files@) == Some(e.message_spec())
                },
            },
    {
        let ghost f = |i: int| entry_problem(entries@, files@, i);
        let mut exact: StringHashMap<Arc<CertifiedKey>> = StringHashMap::new();
        let mut wildcard: Vec<(String, Arc<CertifiedKey>)> = Vec::new();
        let mut default: Option<Arc<CertifiedKey>> = None;
        let mut expiries: Vec<(String, i64)> = Vec::new();
        let ghost mut names: Seq<(Seq<char>, KeyParts)> = Seq::empty();
        let ghost mut origin: Seq<int> = Seq::empty();
        let mut default_seen = false;
        let mut i: usize = 0;
        assert(expiry_view(expiries@) =~= Seq::empty());
        while i < entries.len()
            invariant
                i <= entries@.len(),
                files@.len() == entries@.len(),
                f == (|i: int| entry_problem(entries@, files@, i)),
                first_problem(f, i as nat) is None,
                exact_holds(exact@, names),
                wildcard_holds(wildcard@, origin, names),
                names == bindings_of(entries@, files@, i as nat),
                inner(default) == default_of(entries@, files@, i as nat),
                expiry_view(expiries@) == expiries_of(entries@, files@, i as nat),
                default_seen == default_among(entries@, i as int),
            decreases entries@.len() - i,
        {
            let entry = &entries[i];
            assert(f(i as int) == entry_problem(entries@, files@, i as int));
            let loaded = match load_cert_files(
                entry.cert_file.as_str(),
                entry.key_file.as_str(),
                &files[i],
            ) {
                Ok(l) => l,
                Err(e) => {
                    proof {
                        assert(first_problem(f, (i + 1) as nat) is Some);
                        lemma_first_problem_stays(f, entries@.len(), (i + 1) as nat);
                    }
                    return Err(e);
                },
            };
            let key = loaded.certified_key;
            let not_after: i64 = loaded.not_after_unix;
            let ghost e_before = expiry_view(expiries@);
            if entry.default {
                if default_seen {
                    proof {
                        assert(first_problem(f, (i + 1) as nat) is Some);
                        lemma_first_problem_stays(f, entries@.len(), (i + 1) as nat);
                        reveal_strlit("validation error: ");
                        reveal_strlit("more than one default certificate configured");
                        reveal_strlit(
                            "validation error: more than one default certificate configured",
                        );
                        assert("validation error: "@
                            + "more than one default certificate configured"@
                            =~= "validation error: more than one default certificate configured"@);
                    }
                    return Err(
                        GfeError::Validation(
                            owned("more than one default certificate configured"),
                        ),
                    );
                }
                default_seen = true;
                default = Some(key.clone());
                let ghost e0 = expiries@;
                expiries.push((owned("<default>"), not_after));
                proof {
                    assert(expiry_view(expiries@) =~= expiry_view(e0).push(
                        ("<default>"@, not_after),
                    ));
                }
            }
            proof {
                if default_among(entries@, i + 1) {
                    let j = choose|j: int| 0 <= j < i + 1 && (#[trigger] entries@[j]).default;
                    if j < i {
                        assert(default_among(entries@, i as int));
                    }
                }
                if entry.default {
                    assert(entries@[i as int].default);
                }
                assert(default_seen == default_among(entries@, i + 1));
            }
            let ghost names0 = names;
            let ghost held = shared_parts(key);
            let ghost mine = entry_bindings(entry.sni@, held);
            let ghost e1 = expiry_view(expiries@);
            let ghost my_times = entry.sni@.map_values(|s: String| (lower(s@), not_after));
            assert(names0 + mine.take(0) =~= names0);
            assert(e1 + my_times.take(0) =~= e1);
            let mut k: usize = 0;
            while k < entry.sni.len()
                invariant
                    k <= entry.sni@.len(),
                    held == shared_parts(key),
                    mine == entry_bindings(entry.sni@, held),
                    my_times == entry.sni@.map_values(|s: String| (lower(s@), not_after)),
                    exact_holds(exact@, names),
                    wildcard_holds(wildcard@, origin, names),
                    names == names0 + mine.take(k as int),
                    expiry_view(expiries@) == e1 + my_times.take(k as int),
                decreases entry.sni@.len() - k,
            {
                let name = to_lower(entry.sni[k].as_str());
                let ghost n = name@;
                let ghost before = names;
                let ghost ex0 = expiries@;
                expiries.push((name.clone(), not_after));
                proof {
                    assert(expiry_view(expiries@) =~= expiry_view(ex0).push((n, not_after)));
                    assert(my_times.take(k + 1) =~= my_times.take(k as int).push((n, not_after)));
                    assert(mine.take(k + 1) =~= mine.take(k as int).push((n, held)));
                    names = names.push((n, held));
                    assert(names =~= names0 + mine.take(k + 1));
                    assert(names.drop_last() =~= before);
                }
                let cs = chars_of(name.as_str());
                if cs.len() > 0 && cs[0] == '*' {
                    let tail = slice_subrange(cs.as_slice(), 1, cs.len());
                    let suffix = string_of(tail);
                    assert(suffix@ =~= n.skip(1));
                    let ghost o0 = origin;
                    let at = insert_suffix(
                        &mut wildcard,
                        suffix,
                        key.clone(),
                        Ghost(origin),
                        Ghost(before),
                        Ghost(names),
                    );
                    proof {
                        origin = o0.insert(at as int, before.len() as int);
                        assert(exact_holds(exact@, names)) by {
                            assert forall|m: Seq<char>| exact_key(names, m) == exact_key(
                                before,
                                m,
                            ) by {}
                        }
                    }
                } else {
                    exact.insert(name, key.clone());
                    proof {
                        assert(!is_star(n));
                        assert(exact_holds(exact@, names)) by {
                            assert forall|m: Seq<char>|
                                match exact_key(names, m) {
                                    Some(k) => #[trigger] exact@.contains_key(m) && shared_parts(exact@[m]) == k,
                                    None => !exact@.contains_key(m),
                                } by {
                                if m != n {
                                    assert(exact_key(names, m) == exact_key(before, m));
                                }
                            }
                        }
                        assert(wildcard_holds(wildcard@, origin, names)) by {
                            assert forall|j: int|
                                0 <= j < names.len() && is_star(
                                    (#[trigger] names[j]).0,
                                ) implies origin.contains(j) by {
                                assert(j < before.len());
                                assert(before[j] == names[j]);
                            }
                            assert forall|q: int| 0 <= q < wildcard@.len() implies {
                                let j = #[trigger] origin[q];
                                &&& 0 <= j < names.len()
                                &&& is_star(names[j].0)
                                &&& wildcard@[q].0@ == names[j].0.skip(1)
                                &&& shared_parts(wildcard@[q].1) == names[j].1
                            } by {
                                assert(before[origin[q]] == names[origin[q]]);
                            }
                            assert forall|a: int, b: int| 0 <= a < b < wildcard@.len() implies
                                longer_first(
                                names,
                                #[trigger] origin[a],
                                #[trigger] origin[b],
                            ) by {
                                assert(before[origin[a]] == names[origin[a]]);
                                assert(before[origin[b]] == names[origin[b]]);
                                assert(longer_first(before, origin[a], origin[b]));
                            }
                        }
                    }
                }
                k += 1;
            }
            proof {
                assert(mine.take(k as int) =~= mine);
                assert(my_times.take(k as int) =~= my_times);
                assert(expiry_view(expiries@) =~= e_before + entry_expiries(*entry, not_after));
                assert(entry_outcome(entries@, files@, i as int)->Ok_0 == (held, not_after));
            }
            i += 1;
        }
        Ok(
            CertStore {
                exact,
                wildcard,
                default,
                expiries,
                names: Ghost(names),
                origin: Ghost(origin),
            },
        )
    }

    /// Resolve a certificate for the given SNI (or the default when SNI is
    /// absent or unmatched). Returns `None` only when nothing matches and no
    /// default is configured.
    pub fn resolve(&self, sni: Option<&str>) -> (r: Option<Arc<CertifiedKey>>)
        ensures
            answers_sni(
                self.bindings(),
                self.default_key(),
                match sni {
                    Some(s) => Some(s@),
                    None => None,
                },
                inner(r),
            ),
    {
        proof {
            use_type_invariant(self);
        }
        match sni {
            Some(s) => {
                let name = to_lower(s);
                assert(match exact_key(self.names@, name@) {
                    Some(k) => self.exact@.contains_key(name@) && shared_parts(self.exact@[name@]) == k,
                    None => !self.exact@.contains_key(name@),
                });
                match self.exact.get(name.as_str()) {
                    Some(k) => {
                        return Some(k.clone());
                    },
                    None => {},
                }
                let mut q: usize = 0;
                while q < self.wildcard.len()
                    invariant
                        q <= self.wildcard@.len(),
                        exact_key(self.names@, name@) is None,
                        name@ == lower(s@),
                        sni == Some(s),
                        wildcard_holds(self.wildcard@, self.origin@, self.names@),
                        forall|p: int|
                            0 <= p < q ==> !suffix_match(
                                (#[trigger] self.wildcard@[p]).0@,
                                name@,
                            ),
                    decreases self.wildcard@.len() - q,
                {
                    if wildcard_suffix_matches(self.wildcard[q].0.as_str(), name.as_str()) {
                        proof {
                            let i = self.origin@[q as int];
                            assert(star_covers(self.names@, i, name@));
                            assert forall|j: int|
                                j != i && #[trigger] star_covers(
                                    self.names@,
                                    j,
                                    name@,
                                ) implies longer_first(self.names@, i, j) by {
                                assert(is_star(self.names@[j].0));
                                let p = choose|p: int|
                                    0 <= p < self.origin@.len() && self.origin@[p] == j;
                                assert(self.wildcard@[p].0@ == self.names@[self.origin@[p]].0.skip(
                                    1,
                                ));
                                if p < q {
                                    assert(!suffix_match(self.wildcard@[p].0@, name@));
                                }
                                assert(longer_first(
                                    self.names@,
                                    self.origin@[q as int],
                                    self.origin@[p],
                                ));
                            }
                            assert(best_star(self.names@, i, name@));
                        }
                        return Some(self.wildcard[q].1.clone());
                    }
                    q += 1;
                }
                proof {
                    assert forall|i: int| !star_covers(self.names@, i, name@) by {
                        if star_covers(self.names@, i, name@) {
                            assert(is_star(self.names@[i].0));
                            let p = choose|p: int|
                                0 <= p < self.origin@.len() && self.origin@[p] == i;
                            assert(self.wildcard@[p].0@ == self.names@[self.origin@[p]].0.skip(1));
                        }
                    }
                }
            },
            None => {},
        }
        match &self.default {
            Some(k) => Some(k.clone()),
            None => None,
        }
    }

    /// `(sni-name, not_after_unix)` pairs, for `gfe_cert_expiry_timestamp`.
    pub fn expiries(&self) -> (r: &Vec<(String, i64)>)
        ensures
            expiry_view(r@) == self.expiry_list(),
    {
        &self.expiries
    }

    /// Number of certificate bindings: exact names, wildcards and the default.
    pub fn len(&self) -> (r: usize)
        ensures
            self.exact_names().finite(),
            r == self.binding_count(),
    {
        proof {
            use_type_invariant(self);
            lemma_exact_names_are_bound(self.names@);
            assert(self.exact@.dom() =~= self.exact_names()) by {
                assert forall|n: Seq<char>|
                    self.exact@.dom().contains(n) == self.exact_names().contains(n) by {
                    assert(self.exact@.contains_key(n) == (exact_key(self.names@, n) is Some));
                }
            }
        }
        let d: usize = match self.default {
            Some(_) => 1,
            None => 0,
        };
        let total: u128 = self.exact.len() as u128 + self.wildcard.len() as u128 + d as u128;
        if total <= usize::MAX as u128 {
            total as usize
        } else {
            usize::MAX
        }
    }

    /// Whether nothing is bound.
    pub fn is_empty(&self) -> (r: bool)
        ensures
            r == (self.bindings().len() == 0 && self.default_key() is None),
    {
        proof {
            use_type_invariant(self);
            assert(self.exact@.dom() =~= self.exact_names()) by {
                assert forall|n: Seq<char>|
                    self.exact@.dom().contains(n) == self.exact_names().contains(n) by {
                    assert(self.exact@.contains_key(n) == (exact_key(self.names@, n) is Some));
                }
            }
        }
        let none = self.exact.is_empty() && self.wildcard.len() == 0;
        proof {
            lemma_nothing_bound(self.names@);
            if self.names@.len() > 0 && self.exact@.is_empty() {
                assert forall|n: Seq<char>| exact_key(self.names@, n) is None by {
                    assert(!self.exact@.contains_key(n));
                }
            }
            if self.names@.len() == 0 {
                assert(self.exact@.dom() =~= Set::empty());
                assert(self.exact@ =~= Map::empty());
            }
        }
        none && self.default.is_none()
    }
}

/// The exact names are among those bound, and so there are finitely many.
proof fn lemma_exact_names_are_bound(bindings: Seq<(Seq<char>, KeyParts)>)
    ensures
        Set::new(|n: Seq<char>| exact_key(bindings, n) is Some).finite(),
    decreases bindings.len(),
{
    let all = Set::new(|n: Seq<char>| exact_key(bindings, n) is Some);
    if bindings.len() == 0 {
        assert(all =~= Set::empty());
    } else {
        let before = bindings.drop_last();
        lemma_exact_names_are_bound(before);
        let earlier = Set::new(|n: Seq<char>| exact_key(before, n) is Some);
        assert(all.subset_of(earlier.insert(bindings.last().0)));
        vstd::set_lib::lemma_set_subset_finite(earlier.insert(bindings.last().0), all);
    }
}

/// Where something is bound, there is an exact name or a wildcard.
proof fn lemma_nothing_bound(bindings: Seq<(Seq<char>, KeyParts)>)
    ensures
        bindings.len() > 0 && (forall|n: Seq<char>| exact_key(bindings, n) is None) ==> star_count(
            bindings,
        ) > 0,
{
    if bindings.len() > 0 && !is_star(bindings.last().0) {
        assert(exact_key(bindings, bindings.last().0) is Some);
    }
}

impl Default for CertStore {
    fn default() -> (r: Self)
        ensures
            r.bindings() == Seq::<(Seq<char>, KeyParts)>::empty(),
            r.default_key() is None,
            r.expiry_list() == Seq::<(Seq<char>, i64)>::empty(),
    {
        let r = CertStore {
            exact: StringHashMap::new(),
            wildcard: Vec::new(),
            default: None,
            expiries: Vec::new(),
            names: Ghost(Seq::empty()),
            origin: Ghost(Seq::empty()),
        };
        assert(expiry_view(r.expiries@) =~= Seq::empty());
        r
    }
}

/// Adds a wildcard at its place.
fn insert_suffix(
    wildcard: &mut Vec<(String, Arc<CertifiedKey>)>,
    suffix: String,
    key: Arc<CertifiedKey>,
    origin: Ghost<Seq<int>>,
    before: Ghost<Seq<(Seq<char>, KeyParts)>>,
    names: Ghost<Seq<(Seq<char>, KeyParts)>>,
) -> (at: usize)
    requires
        wildcard_holds(old(wildcard)@, origin@, before@),
        names@.len() == before@.len() + 1,
        names@.drop_last() == before@,
        is_star(names@.last().0),
        names@.last().0.skip(1) == suffix@,
        names@.last().1 == shared_parts(key),
    ensures
        at <= old(wildcard)@.len(),
        wildcard_holds(
            final(wildcard)@,
            origin@.insert(at as int, before@.len() as int),
            names@,
        ),
{
    let len: usize = len_bytes(suffix.as_str());
    let mut at: usize = 0;
    while at < wildcard.len() && len_bytes(wildcard[at].0.as_str()) >= len
        invariant
            at <= wildcard@.len(),
            len == byte_len(suffix@),
            wildcard@ == old(wildcard)@,
            forall|k: int| 0 <= k < at ==> byte_len((#[trigger] wildcard@[k]).0@) >= len,
        decreases wildcard@.len() - at,
    {
        at += 1;
    }
    let ghost old_w = wildcard@;
    let ghost o = origin@;
    wildcard.insert(at, (suffix, key));
    proof {
        let n = before@.len() as int;
        let now = o.insert(at as int, n);
        assert forall|j: int| 0 <= j < n implies #[trigger] names@[j] == before@[j] by {
            assert(names@.drop_last()[j] == names@[j]);
        }
        assert(names@[n] == names@.last());
        assert forall|k: int| 0 <= k < wildcard@.len() implies {
            let i = #[trigger] now[k];
            &&& 0 <= i < names@.len()
            &&& is_star(names@[i].0)
            &&& wildcard@[k].0@ == names@[i].0.skip(1)
            &&& shared_parts(wildcard@[k].1) == names@[i].1
        } by {
            if k < at {
                assert(now[k] == o[k] && wildcard@[k] == old_w[k]);
                assert(names@[o[k]] == before@[o[k]]);
            } else if k > at {
                assert(now[k] == o[k - 1] && wildcard@[k] == old_w[k - 1]);
                assert(names@[o[k - 1]] == before@[o[k - 1]]);
            }
        }
        assert forall|i: int|
            0 <= i < names@.len() && is_star((#[trigger] names@[i]).0) implies now.contains(i) by {
            if i == n {
                assert(now[at as int] == i);
            } else {
                assert(is_star(before@[i].0));
                let k = choose|k: int| 0 <= k < o.len() && o[k] == i;
                if k < at {
                    assert(now[k] == i);
                } else {
                    assert(now[k + 1] == i);
                }
            }
        }
        assert forall|j: int, k: int| 0 <= j < k < wildcard@.len() implies longer_first(
            names@,
            #[trigger] now[j],
            #[trigger] now[k],
        ) by {
            let a = if j < at {
                j
            } else {
                j - 1
            };
            let b = if k < at {
                k
            } else {
                k - 1
            };
            if j == at {
                assert(now[k] == o[b]);
                assert(names@[o[b]] == before@[o[b]]);
                assert(old_w[b].0@ == before@[o[b]].0.skip(1));
                if b > at {
                    assert(longer_first(before@, o[at as int], o[b]));
                    assert(old_w[at as int].0@ == before@[o[at as int]].0.skip(1));
                }
            } else if k == at {
                assert(now[j] == o[a]);
                assert(names@[o[a]] == before@[o[a]]);
                assert(old_w[a].0@ == before@[o[a]].0.skip(1));
            } else {
                assert(now[j] == o[a]);
                assert(now[k] == o[b]);
                assert(names@[o[a]] == before@[o[a]]);
                assert(names@[o[b]] == before@[o[b]]);
                assert(longer_first(before@, o[a], o[b]));
            }
        }
    }
    at
}

/// Match a host against a wildcard suffix (`.example.org`): the host must be a
/// single extra label followed by the suffix.
pub fn wildcard_suffix_matches(suffix: &str, host: &str) -> (r: bool)
    ensures
        r == suffix_match(suffix@, host@),
{
    let s = chars_of(suffix);
    let h = chars_of(host);
    if h.len() <= s.len() {
        return false;
    }
    let n: usize = h.len() - s.len();
    let tail = slice_subrange(h.as_slice(), n, h.len());
    let label = slice_subrange(h.as_slice(), 0, n);
    assert(tail@ =~= host@.skip(n as int));
    assert(label@ =~= host@.take(n as int));
    crate::text::chars_eq(tail, s.as_slice()) && !has_char(label, '.')
}

// ---------------------------------------------------------------------------
// Laws
// ---------------------------------------------------------------------------

/// A server name has one certificate: the rule decides.
pub proof fn law_certificate_is_unique(
    bindings: Seq<(Seq<char>, KeyParts)>,
    default: Option<KeyParts>,
    sni: Option<Seq<char>>,
    a: Option<KeyParts>,
    b: Option<KeyParts>,
)
    requires
        answers_sni(bindings, default, sni, a),
        answers_sni(bindings, default, sni, b),
    ensures
        a == b,
{
    if let Some(s) = sni {
        let name = lower(s);
        if exact_key(bindings, name) is None && exists|i: int| star_covers(bindings, i, name) {
            let i = choose|i: int| #[trigger] best_star(bindings, i, name) && a == Some(
                bindings[i].1,
            );
            let j = choose|j: int| #[trigger] best_star(bindings, j, name) && b == Some(
                bindings[j].1,
            );
            if i != j {
                assert(star_covers(bindings, i, name) && star_covers(bindings, j, name));
                assert(longer_first(bindings, i, j) && longer_first(bindings, j, i));
            }
        }
    }
}

/// With a default certificate every connection gets a certificate.
pub proof fn law_default_serves_everyone(
    bindings: Seq<(Seq<char>, KeyParts)>,
    default: Option<KeyParts>,
    sni: Option<Seq<char>>,
    r: Option<KeyParts>,
)
    requires
        answers_sni(bindings, default, sni, r),
        default is Some,
    ensures
        r is Some,
{
}

/// A connection is refused only when its name matches nothing and there is no
/// default.
pub proof fn law_refused_only_without_match(
    bindings: Seq<(Seq<char>, KeyParts)>,
    default: Option<KeyParts>,
    sni: Seq<char>,
    r: Option<KeyParts>,
)
    requires
        answers_sni(bindings, default, Some(sni), r),
    ensures
        r is None <==> exact_key(bindings, lower(sni)) is None && default is None && forall|i: int|
            !star_covers(bindings, i, lower(sni)),
{
}

/// A server name that is bound exactly gets the certificate of its last
/// binding, in any case of letters and whatever else is bound.
pub proof fn law_exact_name_wins(
    bindings: Seq<(Seq<char>, KeyParts)>,
    default: Option<KeyParts>,
    sni: Seq<char>,
    r: Option<KeyParts>,
    i: int,
)
    requires
        answers_sni(bindings, default, Some(sni), r),
        0 <= i < bindings.len(),
        bindings[i].0 == lower(sni),
        sni.len() == 0 || sni[0] != '*',
        forall|j: int| i < j < bindings.len() ==> (#[trigger] bindings[j]).0 != lower(sni),
    ensures
        r == Some(bindings[i].1),
{
    if sni.len() > 0 {
        law_lower_changes_capitals_only(sni, 0);
    }
    lemma_exact_key_is(bindings, lower(sni), i);
}

proof fn lemma_exact_key_is(bindings: Seq<(Seq<char>, KeyParts)>, name: Seq<char>, i: int)
    requires
        0 <= i < bindings.len(),
        bindings[i].0 == name,
        !is_star(name),
        forall|j: int| i < j < bindings.len() ==> (#[trigger] bindings[j]).0 != name,
    ensures
        exact_key(bindings, name) == Some(bindings[i].1),
    decreases bindings.len(),
{
    if i < bindings.len() - 1 {
        let before = bindings.drop_last();
        assert(bindings[bindings.len() - 1].0 != name);
        assert forall|j: int| i < j < before.len() implies (#[trigger] before[j]).0 != name by {
            assert(before[j] == bindings[j]);
        }
        lemma_exact_key_is(before, name, i);
    }
}

proof fn lemma_no_exact_key(bindings: Seq<(Seq<char>, KeyParts)>, name: Seq<char>)
    requires
        forall|j: int| 0 <= j < bindings.len() ==> (#[trigger] bindings[j]).0 != name,
    ensures
        exact_key(bindings, name) is None,
    decreases bindings.len(),
{
    if bindings.len() > 0 {
        let before = bindings.drop_last();
        assert(bindings[bindings.len() - 1].0 != name);
        assert forall|j: int| 0 <= j < before.len() implies (#[trigger] before[j]).0 != name by {
            assert(before[j] == bindings[j]);
        }
        lemma_no_exact_key(before, name);
    }
}

/// A server name that is not bound exactly, and that is one label without a
/// dot in front of the rest of a wildcard, gets the certificate of such a
/// wildcard, with or without a default: of the one with the longest rest, and
/// of equally long ones of the first.
pub proof fn law_wildcard_before_default(
    bindings: Seq<(Seq<char>, KeyParts)>,
    default: Option<KeyParts>,
    sni: Seq<char>,
    r: Option<KeyParts>,
    i: int,
    label: Seq<char>,
    rest: Seq<char>,
)
    requires
        answers_sni(bindings, default, Some(sni), r),
        forall|j: int| 0 <= j < bindings.len() ==> (#[trigger] bindings[j]).0 != lower(sni),
        0 <= i < bindings.len(),
        bindings[i].0 == seq!['*'] + rest,
        lower(sni) == label + rest,
        label.len() > 0,
        !label.contains('.'),
    ensures
        exists|k: int|
            0 <= k < bindings.len() && {
                let name = lower(sni);
                let tail = (#[trigger] bindings[k]).0.skip(1);
                let n = name.len() - tail.len();
                &&& r == Some(bindings[k].1)
                &&& bindings[k].0.len() > 0
                &&& bindings[k].0[0] == '*'
                &&& n > 0
                &&& name.skip(n) == tail
                &&& !name.take(n).contains('.')
                &&& vstd::utf8::encode_utf8(tail).len() > vstd::utf8::encode_utf8(rest).len() || (
                vstd::utf8::encode_utf8(tail).len() == vstd::utf8::encode_utf8(rest).len() && k
                    <= i)
            },
{
    let name = lower(sni);
    lemma_no_exact_key(bindings, name);
    assert(bindings[i].0.skip(1) =~= rest);
    let n = name.len() - rest.len();
    assert(name.skip(n) =~= rest);
    assert(name.take(n) =~= label);
    assert(star_covers(bindings, i, name));
    let k = choose|k: int| #[trigger] best_star(bindings, k, name) && r == Some(bindings[k].1);
    assert(star_covers(bindings, k, name));
    if k != i {
        assert(longer_first(bindings, k, i));
    }
    assert(bindings[k].0.len() > 0);
}

/// The default certificate is for connections without a server name, and for
/// names that are neither bound exactly nor one label in front of the rest of
/// a wildcard; without a default these are refused.
pub proof fn law_default_is_the_last_resort(
    bindings: Seq<(Seq<char>, KeyParts)>,
    default: Option<KeyParts>,
    sni: Option<Seq<char>>,
    r: Option<KeyParts>,
)
    requires
        answers_sni(bindings, default, sni, r),
        sni matches Some(s) ==> forall|j: int|
            0 <= j < bindings.len() ==> {
                let bound = (#[trigger] bindings[j]).0;
                let name = lower(s);
                let n = name.len() - bound.len() + 1;
                &&& bound != name
                &&& !(bound.len() > 0 && bound[0] == '*' && n > 0 && name.skip(n) == bound.skip(1)
                    && !name.take(n).contains('.'))
            },
    ensures
        r == default,
{
    if let Some(s) = sni {
        let name = lower(s);
        assert forall|j: int| 0 <= j < bindings.len() implies (#[trigger] bindings[j]).0 != name by {
            assert(bindings[j].0 == bindings[j].0);
        }
        lemma_no_exact_key(bindings, name);
        assert forall|i: int| !star_covers(bindings, i, name) by {
            if star_covers(bindings, i, name) {
                assert(bindings[i].0.skip(1).len() == bindings[i].0.len() - 1);
            }
        }
    }
}

/// The place of name `k` of entry `i` among the bound names: the names of all
/// entries before it come first.
pub open spec fn name_place(entries: Seq<CertEntry>, i: int, k: int) -> int {
    entries.take(i).fold_left(0int, |t: int, e: CertEntry| t + e.sni@.len()) + k
}

proof fn lemma_bindings(entries: Seq<CertEntry>, files: Seq<CertFiles>, n: nat)
    requires
        n <= entries.len(),
    ensures
        bindings_of(entries, files, n).len() == name_place(entries, n as int, 0),
    decreases n,
{
    if n > 0 {
        lemma_bindings(entries, files, (n - 1) as nat);
        assert(entries.take(n as int).drop_last() =~= entries.take(n - 1));
    }
}

proof fn lemma_binding_at(entries: Seq<CertEntry>, files: Seq<CertFiles>, n: nat, i: int, k: int)
    requires
        i < n <= entries.len(),
        0 <= i,
        0 <= k < entries[i].sni@.len(),
    ensures
        0 <= name_place(entries, i, k) < bindings_of(entries, files, n).len(),
        bindings_of(entries, files, n)[name_place(entries, i, k)] == (
            lower(entries[i].sni@[k]@),
            entry_outcome(entries, files, i)->Ok_0.0,
        ),
    decreases n,
{
    lemma_bindings(entries, files, (n - 1) as nat);
    lemma_bindings(entries, files, i as nat);
    if i < n - 1 {
        lemma_binding_at(entries, files, (n - 1) as nat, i, k);
    }
}

/// In a store that was built, every name of every entry is bound, in lower
/// case and in the order of the configuration, to the certificate of its
/// entry, and nothing else is bound.
pub proof fn law_entries_bind_their_names(
    entries: Seq<CertEntry>,
    files: Seq<CertFiles>,
    i: int,
    k: int,
    key: KeyParts,
    not_after: i64,
)
    requires
        0 <= i < entries.len(),
        0 <= k < entries[i].sni@.len(),
        files_outcome(entries[i].cert_file@, entries[i].key_file@, files[i]) == Ok::<
            (KeyParts, i64),
            Seq<char>,
        >((key, not_after)),
    ensures
        ({
            let all = bindings_of(entries, files, entries.len());
            &&& all.len() == name_place(entries, entries.len() as int, 0)
            &&& 0 <= name_place(entries, i, k) < all.len()
            &&& all[name_place(entries, i, k)] == (lower(entries[i].sni@[k]@), key)
        }),
{
    lemma_bindings(entries, files, entries.len());
    lemma_binding_at(entries, files, entries.len(), i, k);
}

/// The default certificate is that of the entry marked so, where one entry is,
/// and there is none where no entry is.
pub proof fn law_default_entry(
    entries: Seq<CertEntry>,
    files: Seq<CertFiles>,
    i: int,
    key: KeyParts,
    not_after: i64,
)
    ensures
        (forall|j: int| 0 <= j < entries.len() ==> !(#[trigger] entries[j]).default) ==> default_of(
            entries,
            files,
            entries.len(),
        ) is None,
        0 <= i < entries.len() && entries[i].default && (forall|j: int|
            0 <= j < entries.len() && j != i ==> !(#[trigger] entries[j]).default) && files_outcome(
            entries[i].cert_file@,
            entries[i].key_file@,
            files[i],
        ) == Ok::<(KeyParts, i64), Seq<char>>((key, not_after)) ==> default_of(
            entries,
            files,
            entries.len(),
        ) == Some(key),
{
    if forall|j: int| 0 <= j < entries.len() ==> !(#[trigger] entries[j]).default {
        lemma_no_default_from(entries, files, entries.len(), 0);
    }
    if 0 <= i < entries.len() && entries[i].default && (forall|j: int|
        0 <= j < entries.len() && j != i ==> !(#[trigger] entries[j]).default) {
        lemma_no_default_from(entries, files, entries.len(), (i + 1) as nat);
    }
}

proof fn lemma_no_default_from(entries: Seq<CertEntry>, files: Seq<CertFiles>, n: nat, m: nat)
    requires
        m <= n <= entries.len(),
        forall|j: int| m <= j < n ==> !(#[trigger] entries[j]).default,
    ensures
        default_of(entries, files, n) == default_of(entries, files, m),
    decreases n,
{
    if m < n {
        assert(!entries[n - 1].default);
        lemma_no_default_from(entries, files, (n - 1) as nat, m);
    }
}

/// A store is built exactly when every certificate loads and at most one entry
/// is the default.
pub proof fn law_store_is_built_iff(entries: Seq<CertEntry>, files: Seq<CertFiles>)
    ensures
        store_problem(entries, files) is None <==> (forall|i: int|
            0 <= i < entries.len() ==> files_outcome(
                (#[trigger] entries[i]).cert_file@,
                entries[i].key_file@,
                files[i],
            ) is Ok) && (forall|i: int, j: int|
            0 <= i < j < entries.len() ==> !((#[trigger] entries[i]).default && (
            #[trigger] entries[j]).default)),
{
    let f = |i: int| entry_problem(entries, files, i);
    if store_problem(entries, files) is None {
        assert forall|i: int| 0 <= i < entries.len() implies files_outcome(
            (#[trigger] entries[i]).cert_file@,
            entries[i].key_file@,
            files[i],
        ) is Ok by {
            lemma_no_first_problem(f, entries.len(), i);
        }
        assert forall|i: int, j: int| 0 <= i < j < entries.len() implies !((
        #[trigger] entries[i]).default && (#[trigger] entries[j]).default) by {
            lemma_no_first_problem(f, entries.len(), j);
            if entries[i].default {
                assert(default_among(entries, j));
            }
        }
    }
    if (forall|i: int|
        0 <= i < entries.len() ==> files_outcome(
            (#[trigger] entries[i]).cert_file@,
            entries[i].key_file@,
            files[i],
        ) is Ok) && (forall|i: int, j: int|
        0 <= i < j < entries.len() ==> !((#[trigger] entries[i]).default && (
        #[trigger] entries[j]).default)) {
        assert forall|i: int| 0 <= i < entries.len() implies (#[trigger] f(i)) is None by {
            assert(entries[i].cert_file@ == entries[i].cert_file@);
            if entries[i].default && default_among(entries, i) {
                let j = choose|j: int| 0 <= j < i && (#[trigger] entries[j]).default;
                assert(entries[i].default);
            }
        }
        lemma_all_fine(f, entries.len());
    }
}

proof fn lemma_expiries(entries: Seq<CertEntry>, files: Seq<CertFiles>, n: nat, i: int, e: (Seq<char>, i64))
    requires
        0 <= i < n,
        entry_expiries(entries[i], entry_outcome(entries, files, i)->Ok_0.1).contains(e),
    ensures
        expiries_of(entries, files, n).contains(e),
    decreases n,
{
    let before = expiries_of(entries, files, (n - 1) as nat);
    let mine = entry_expiries(entries[n - 1], entry_outcome(entries, files, n - 1)->Ok_0.1);
    let all = expiries_of(entries, files, n);
    if i == n - 1 {
        let k = choose|k: int| 0 <= k < mine.len() && mine[k] == e;
        assert(all[before.len() + k] == e);
    } else {
        lemma_expiries(entries, files, (n - 1) as nat, i, e);
        let k = choose|k: int| 0 <= k < before.len() && before[k] == e;
        assert(all[k] == e);
    }
}

/// The expiry of a certificate is published under each of its names in lower
/// case, and under `<default>` for the default.
pub proof fn law_expiries_are_published(
    entries: Seq<CertEntry>,
    files: Seq<CertFiles>,
    i: int,
    k: int,
    key: KeyParts,
    not_after: i64,
)
    requires
        0 <= i < entries.len(),
        files_outcome(entries[i].cert_file@, entries[i].key_file@, files[i]) == Ok::<
            (KeyParts, i64),
            Seq<char>,
        >((key, not_after)),
    ensures
        0 <= k < entries[i].sni@.len() ==> expiries_of(entries, files, entries.len()).contains(
            (lower(entries[i].sni@[k]@), not_after),
        ),
        entries[i].default ==> expiries_of(entries, files, entries.len()).contains(
            ("<default>"@, not_after),
        ),
{
    let mine = entry_expiries(entries[i], not_after);
    if 0 <= k < entries[i].sni@.len() {
        let at = if entries[i].default {
            k + 1
        } else {
            k
        };
        assert(mine[at] == (lower(entries[i].sni@[k]@), not_after));
        lemma_expiries(
            entries,
            files,
            entries.len(),
            i,
            (lower(entries[i].sni@[k]@), not_after),
        );
    }
    if entries[i].default {
        assert(mine[0] == ("<default>"@, not_after));
        lemma_expiries(entries, files, entries.len(), i, ("<default>"@, not_after));
    }
}

proof fn lemma_stars_are_filtered(bindings: Seq<(Seq<char>, KeyParts)>)
    ensures
        star_count(bindings) == bindings.filter(
            |b: (Seq<char>, KeyParts)| b.0.len() > 0 && b.0[0] == '*',
        ).len(),
    decreases bindings.len(),
{
    reveal(Seq::filter);
    if bindings.len() > 0 {
        lemma_stars_are_filtered(bindings.drop_last());
    }
}

/// The count of a store is that of its distinct exact names, of its wildcard
/// bindings, and of its default, up to the largest count there is.
pub proof fn law_binding_count(store: CertStore)
    ensures
        ({
            let stars = store.bindings().filter(
                |b: (Seq<char>, KeyParts)| b.0.len() > 0 && b.0[0] == '*',
            ).len();
            let default = if store.default_key() is Some {
                1nat
            } else {
                0
            };
            let n = store.exact_names().len() + stars + default;
            &&& n <= usize::MAX ==> store.binding_count() == n
            &&& n > usize::MAX ==> store.binding_count() == usize::MAX
        }),
{
    lemma_stars_are_filtered(store.bindings());
}

/// A name is bound exactly where it is no wildcard and some binding has it.
pub proof fn law_exact_names(bindings: Seq<(Seq<char>, KeyParts)>, name: Seq<char>)
    ensures
        exact_key(bindings, name) is Some <==> !(name.len() > 0 && name[0] == '*') && exists|
            i: int,
        |
            0 <= i < bindings.len() && (#[trigger] bindings[i]).0 == name,
    decreases bindings.len(),
{
    if bindings.len() > 0 {
        let before = bindings.drop_last();
        law_exact_names(before, name);
        if exists|i: int| 0 <= i < before.len() && (#[trigger] before[i]).0 == name {
            let i = choose|i: int| 0 <= i < before.len() && (#[trigger] before[i]).0 == name;
            assert(bindings[i].0 == name);
        }
        if exists|i: int| 0 <= i < bindings.len() && (#[trigger] bindings[i]).0 == name {
            let i = choose|i: int| 0 <= i < bindings.len() && (#[trigger] bindings[i]).0 == name;
            if i < before.len() {
                assert(before[i].0 == name);
            }
        }
    }
}

/// The expiries are listed entry by entry: that of a default entry under
/// `<default>` first, and then that of each of its names in lower case.
pub proof fn law_expiries_in_order(
    entries: Seq<CertEntry>,
    files: Seq<CertFiles>,
    i: int,
    key: KeyParts,
    not_after: i64,
)
    requires
        0 <= i < entries.len(),
        files_outcome(entries[i].cert_file@, entries[i].key_file@, files[i]) == Ok::<
            (KeyParts, i64),
            Seq<char>,
        >((key, not_after)),
    ensures
        expiries_of(entries, files, 0) == Seq::<(Seq<char>, i64)>::empty(),
        expiries_of(entries, files, (i + 1) as nat) == expiries_of(entries, files, i as nat) + (
        if entries[i].default {
            seq![("<default>"@, not_after)]
        } else {
            Seq::empty()
        }) + Seq::new(
            entries[i].sni@.len(),
            |k: int| (lower(entries[i].sni@[k]@), not_after),
        ),
{
    let names = Seq::new(
        entries[i].sni@.len(),
        |k: int| (lower(entries[i].sni@[k]@), not_after),
    );
    assert(entries[i].sni@.map_values(|s: String| (lower(s@), not_after)) =~= names);
    assert(expiries_of(entries, files, (i + 1) as nat) =~= expiries_of(entries, files, i as nat) + (
    if entries[i].default {
        seq![("<default>"@, not_after)]
    } else {
        Seq::empty()
    }) + names);
}

/// The first entry with a problem is what a store is refused for: its
/// certificate does not load, or it is a second default.
pub proof fn law_bad_entry_is_named(
    entries: Seq<CertEntry>,
    files: Seq<CertFiles>,
    i: int,
    k: int,
    e: Seq<char>,
)
    requires
        0 <= i < entries.len(),
        forall|a: int|
            0 <= a < i ==> files_outcome(
                (#[trigger] entries[a]).cert_file@,
                entries[a].key_file@,
                files[a],
            ) is Ok,
        forall|a: int, b: int|
            0 <= a < b < i ==> !((#[trigger] entries[a]).default && (
            #[trigger] entries[b]).default),
    ensures
        files_outcome(entries[i].cert_file@, entries[i].key_file@, files[i]) == Err::<
            (KeyParts, i64),
            Seq<char>,
        >(e) ==> store_problem(entries, files) == Some("certificate error: "@ + e),
        files_outcome(entries[i].cert_file@, entries[i].key_file@, files[i]) is Ok && 0 <= k < i
            && entries[k].default && entries[i].default ==> store_problem(entries, files) == Some(
            "validation error: more than one default certificate configured"@,
        ),
{
    let f = |a: int| entry_problem(entries, files, a);
    assert forall|a: int| 0 <= a < i implies (#[trigger] f(a)) is None by {
        assert(entries[a].cert_file@ == entries[a].cert_file@);
        if entries[a].default && default_among(entries, a) {
            let b = choose|b: int| 0 <= b < a && (#[trigger] entries[b]).default;
            assert(entries[a].default);
        }
    }
    if 0 <= k < i && entries[k].default {
        assert(default_among(entries, i));
    }
    if f(i) is Some {
        law_first_problem_is_first(f, entries.len(), i);
    }
}

/// The parts of an optional key are those of the key.
pub proof fn law_parts_of_keys(k: Arc<CertifiedKey>)
    ensures
        inner(Some(k)) == Some(crate::tls::loader::key_parts(*k)),
        inner(None) is None,
{
}

}
