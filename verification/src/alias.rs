use vstd::prelude::*;

verus! {

/// One known identity: a public key and the alias it is displayed under.
pub struct AliasEntry {
    pub key: u64,
    pub alias: String,
}

/// A read-only directory from public keys to display aliases. It decorates
/// authors and assignees at presentation time only; materialization never
/// consults it.
pub struct AliasBook {
    entries: Vec<AliasEntry>,
}

/// Some entry carries the key.
pub open spec fn book_contains(s: Seq<AliasEntry>, key: u64) -> bool {
    exists|i: int| 0 <= i < s.len() && s[i].key == key
}

/// The position of that entry (meaningful when `book_contains`).
pub open spec fn book_index(s: Seq<AliasEntry>, key: u64) -> int {
    choose|i: int| 0 <= i < s.len() && s[i].key == key
}

/// No two entries share a key.
pub open spec fn book_wf(s: Seq<AliasEntry>) -> bool {
    forall|i: int, j: int| 0 <= i < j < s.len() ==> s[i].key != s[j].key
}

/// Any witness position for a key agrees with `book_index`.
proof fn lemma_book_index(s: Seq<AliasEntry>, i: int)
    requires
        book_wf(s),
        0 <= i < s.len(),
    ensures
        book_contains(s, s[i].key),
        book_index(s, s[i].key) == i,
{
    assert(book_contains(s, s[i].key)) by {
        assert(0 <= i < s.len() && s[i].key == s[i].key);
    }
    let j = book_index(s, s[i].key);
    assert(0 <= j < s.len() && s[j].key == s[i].key);
    if i < j {
        assert(s[i].key != s[j].key);
    } else if j < i {
        assert(s[j].key != s[i].key);
    }
}

impl AliasBook {
    /// Every reachable book is well formed.
    pub closed spec fn wf(&self) -> bool {
        book_wf(self.entries@)
    }

    /// The alias recorded for a key, if any.
    pub closed spec fn spec_resolve(&self, key: u64) -> Option<Seq<char>> {
        if book_contains(self.entries@, key) {
            Option::Some(self.entries@[book_index(self.entries@, key)].alias@)
        } else {
            Option::None
        }
    }

    /// An empty directory.
    pub fn new() -> (r: AliasBook)
        ensures
            r.wf(),
            forall|k: u64| r.spec_resolve(k) is None,
    {
        AliasBook { entries: Vec::new() }
    }

    /// Records the alias of a key, replacing any earlier one.
    pub fn register(&mut self, key: u64, alias: String)
        requires
            old(self).wf(),
        ensures
            final(self).wf(),
            final(self).spec_resolve(key) == Option::Some(alias@),
            forall|x: u64| x != key ==> final(self).spec_resolve(x) == old(self).spec_resolve(x),
    {
        let ghost s0 = self.entries@;
        let mut i: usize = 0;
        while i < self.entries.len()
            invariant
                self.entries@ == s0,
                s0 == old(self).entries@,
                book_wf(s0),
                i <= s0.len(),
                forall|k: int| 0 <= k < i ==> (#[trigger] s0[k]).key != key,
            decreases s0.len() - i,
        {
            if self.entries[i].key == key {
                self.entries.remove(i);
                self.entries.insert(i, AliasEntry { key, alias });
                proof {
                    let t = self.entries@;
                    assert(forall|j: int| 0 <= j < t.len() && j != i ==> t[j] == s0[j]);
                    assert(t[i as int] == (AliasEntry { key, alias }));
                    assert(book_wf(t)) by {
                        assert forall|a: int, b: int|
                            0 <= a < b < t.len() implies t[a].key != t[b].key by {
                            assert(s0[a].key != s0[b].key);
                        }
                    }
                    lemma_book_index(t, i as int);
                    assert forall|x: u64|
                        x != key implies self.spec_resolve(x) == old(self).spec_resolve(x) by {
                        if book_contains(s0, x) {
                            let w = book_index(s0, x);
                            assert(0 <= w < s0.len() && s0[w].key == x);
                            assert(w != i);
                            assert(t[w].key == x);
                            lemma_book_index(s0, w);
                            lemma_book_index(t, w);
                        } else {
                            if book_contains(t, x) {
                                let w = book_index(t, x);
                                assert(0 <= w < t.len() && t[w].key == x);
                                assert(w != i);
                                assert(s0[w].key == x);
                            }
                        }
                    }
                }
                return;
            }
            i = i + 1;
        }
        self.entries.push(AliasEntry { key, alias });
        proof {
            let t = self.entries@;
            assert(forall|j: int| 0 <= j < s0.len() ==> t[j] == s0[j]);
            assert(t[s0.len() as int] == (AliasEntry { key, alias }));
            assert(book_wf(t)) by {
                assert forall|a: int, b: int|
                    0 <= a < b < t.len() implies t[a].key != t[b].key by {
                    if b == s0.len() {
                        assert(s0[a].key != key);
                    }
                }
            }
            lemma_book_index(t, s0.len() as int);
            assert forall|x: u64|
                x != key implies self.spec_resolve(x) == old(self).spec_resolve(x) by {
                if book_contains(s0, x) {
                    let w = book_index(s0, x);
                    assert(t[w].key == x);
                    lemma_book_index(s0, w);
                    lemma_book_index(t, w);
                } else {
                    if book_contains(t, x) {
                        let w = book_index(t, x);
                        assert(0 <= w < t.len() && t[w].key == x);
                        assert(w != s0.len());
                        assert(s0[w].key == x);
                    }
                }
            }
        }
    }

    /// Looks the alias of a key up: a pure lookup with no mutation, used only
    /// to decorate display fields.
    pub fn resolve(&self, key: u64) -> (r: Option<String>)
        requires
            self.wf(),
        ensures
            match r {
                Option::Some(s) => self.spec_resolve(key) == Option::Some(s@),
                Option::None => self.spec_resolve(key) is None,
            },
    {
        let mut i: usize = 0;
        while i < self.entries.len()
            invariant
                self.wf(),
                i <= self.entries@.len(),
                forall|k: int| 0 <= k < i ==> (#[trigger] self.entries@[k]).key != key,
            decreases self.entries@.len() - i,
        {
            if self.entries[i].key == key {
                proof {
                    lemma_book_index(self.entries@, i as int);
                }
                return Some(self.entries[i].alias.clone());
            }
            i = i + 1;
        }
        None
    }
}

} // verus!
