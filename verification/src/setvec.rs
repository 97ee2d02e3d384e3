use vstd::prelude::*;

verus! {

/// The set of string contents held by a list of strings.
pub open spec fn strings_set(v: Seq<String>) -> Set<Seq<char>> {
    v.map_values(|s: String| s@).to_set()
}

/// No two strings of the list have the same content.
pub open spec fn strings_nodup(v: Seq<String>) -> bool {
    forall|i: int, j: int| 0 <= i < j < v.len() ==> v[i]@ != v[j]@
}

/// No two elements of the list are equal.
pub open spec fn u64s_nodup(v: Seq<u64>) -> bool {
    forall|i: int, j: int| 0 <= i < j < v.len() ==> v[i] != v[j]
}

/// Whether some string of `v` has the content of `x`.
pub fn has_string(v: &Vec<String>, x: &String) -> (r: bool)
    ensures
        r == strings_set(v@).contains(x@),
{
    let mut i: usize = 0;
    while i < v.len()
        invariant
            i <= v@.len(),
            forall|k: int| 0 <= k < i ==> (#[trigger] v@[k])@ != x@,
        decreases v@.len() - i,
    {
        if v[i] == *x {
            proof {
                assert(v@.map_values(|s: String| s@)[i as int] == x@);
            }
            return true;
        }
        i = i + 1;
    }
    proof {
        let m = v@.map_values(|s: String| s@);
        if m.contains(x@) {
            let k = choose|k: int| 0 <= k < m.len() && m[k] == x@;
            assert(v@[k]@ == x@);
            assert(false);
        }
        assert(!strings_set(v@).contains(x@));
    }
    false
}

/// Adds the content of `x` to the set of labels held by `v`.
pub fn add_string(v: &mut Vec<String>, x: &String)
    requires
        strings_nodup(old(v)@),
    ensures
        strings_nodup(final(v)@),
        strings_set(final(v)@) == strings_set(old(v)@).insert(x@),
{
    let present = has_string(v, x);
    if !present {
        v.push(x.clone());
        proof {
            let m0 = old(v)@.map_values(|s: String| s@);
            let m1 = v@.map_values(|s: String| s@);
            assert(m1 =~= m0.push(x@));
            assert(!m0.contains(x@));
            assert(strings_nodup(v@)) by {
                assert forall|a: int, b: int|
                    0 <= a < b < v@.len() implies v@[a]@ != v@[b]@ by {
                    if b == v@.len() - 1 {
                        assert(m0[a] == old(v)@[a]@);
                    }
                }
            }
            assert(m1.to_set() =~= m0.to_set().insert(x@)) by {
                assert forall|a: Seq<char>| m1.contains(a) <==> (m0.contains(a) || a == x@) by {
                    if m1.contains(a) {
                        let k = choose|k: int| 0 <= k < m1.len() && m1[k] == a;
                        if k < m0.len() {
                            assert(m0[k] == a);
                        }
                    }
                    if m0.contains(a) {
                        let k = choose|k: int| 0 <= k < m0.len() && m0[k] == a;
                        assert(m1[k] == a);
                    }
                    if a == x@ {
                        assert(m1[m1.len() - 1] == a);
                    }
                }
            }
        }
    } else {
        proof {
            assert(strings_set(v@) =~= strings_set(old(v)@).insert(x@));
        }
    }
}

/// Removes the content of `x` from the set of labels held by `v`.
pub fn remove_string(v: &mut Vec<String>, x: &String)
    requires
        strings_nodup(old(v)@),
    ensures
        strings_nodup(final(v)@),
        strings_set(final(v)@) == strings_set(old(v)@).remove(x@),
{
    let mut i: usize = 0;
    while i < v.len()
        invariant
            i <= v@.len(),
            v@ == old(v)@,
            strings_nodup(v@),
            forall|k: int| 0 <= k < i ==> (#[trigger] v@[k])@ != x@,
        decreases v@.len() - i,
    {
        if v[i] == *x {
            let ghost s0 = v@;
            v.remove(i);
            proof {
                let m0 = s0.map_values(|s: String| s@);
                let m1 = v@.map_values(|s: String| s@);
                assert(m1 =~= m0.remove(i as int));
                assert(forall|j: int| 0 <= j < i ==> m1[j] == m0[j]);
                assert(forall|j: int| i <= j < m1.len() ==> m1[j] == m0[j + 1]);
                assert(strings_nodup(v@)) by {
                    assert forall|a: int, b: int|
                        0 <= a < b < v@.len() implies (v@[a])@
                        != (v@[b])@ by {
                        let a0: int = if a < i { a } else { a + 1 };
                        let b0: int = if b < i { b } else { b + 1 };
                        assert(v@[a] == s0[a0] && v@[b] == s0[b0]);
                    }
                }
                assert(m1.to_set() =~= m0.to_set().remove(x@)) by {
                    assert forall|c: Seq<char>| m1.contains(c) <==> (m0.contains(c) && c != x@)
                        by {
                        if m1.contains(c) {
                            let k = choose|k: int| 0 <= k < m1.len() && m1[k] == c;
                            let k0: int = if k < i { k } else { k + 1 };
                            assert(m0[k0] == c);
                            assert(s0[k0]@ == c);
                            if c == x@ {
                                assert(s0[i as int]@ == x@);
                            }
                        }
                        if m0.contains(c) && c != x@ {
                            let k = choose|k: int| 0 <= k < m0.len() && m0[k] == c;
                            assert(s0[k]@ == c);
                            if k < i {
                                assert(m1[k] == c);
                            } else {
                                assert(m1[k - 1] == c);
                            }
                        }
                    }
                }
            }
            return;
        }
        i = i + 1;
    }
    proof {
        assert(strings_set(v@) =~= strings_set(old(v)@).remove(x@)) by {
            let m0 = old(v)@.map_values(|s: String| s@);
            assert forall|c: Seq<char>| m0.contains(c) implies c != x@ by {
                let k = choose|k: int| 0 <= k < m0.len() && m0[k] == c;
                assert(old(v)@[k]@ == c);
            }
        }
    }
}

/// Whether `x` occurs in `v`.
pub fn has_u64(v: &Vec<u64>, x: u64) -> (r: bool)
    ensures
        r == v@.to_set().contains(x),
{
    let mut i: usize = 0;
    while i < v.len()
        invariant
            i <= v@.len(),
            forall|k: int| 0 <= k < i ==> #[trigger] v@[k] != x,
        decreases v@.len() - i,
    {
        if v[i] == x {
            return true;
        }
        i = i + 1;
    }
    false
}

/// Adds `x` to the set of values held by `v`.
pub fn add_u64(v: &mut Vec<u64>, x: u64)
    requires
        u64s_nodup(old(v)@),
    ensures
        u64s_nodup(final(v)@),
        final(v)@.to_set() == old(v)@.to_set().insert(x),
{
    let present = has_u64(v, x);
    if !present {
        v.push(x);
        proof {
            assert(v@.to_set() =~= old(v)@.to_set().insert(x)) by {
                assert forall|c: u64| v@.contains(c) <==> (old(v)@.contains(c) || c == x) by {
                    if v@.contains(c) {
                        let k = choose|k: int| 0 <= k < v@.len() && v@[k] == c;
                        if k < old(v)@.len() {
                            assert(old(v)@[k] == c);
                        }
                    }
                    if old(v)@.contains(c) {
                        let k = choose|k: int| 0 <= k < old(v)@.len() && old(v)@[k] == c;
                        assert(v@[k] == c);
                    }
                    if c == x {
                        assert(v@[v@.len() - 1] == c);
                    }
                }
            }
        }
    } else {
        proof {
            assert(v@.to_set() =~= old(v)@.to_set().insert(x));
        }
    }
}

/// Removes `x` from the set of values held by `v`.
pub fn remove_u64(v: &mut Vec<u64>, x: u64)
    requires
        u64s_nodup(old(v)@),
    ensures
        u64s_nodup(final(v)@),
        final(v)@.to_set() == old(v)@.to_set().remove(x),
{
    let mut i: usize = 0;
    while i < v.len()
        invariant
            i <= v@.len(),
            v@ == old(v)@,
            u64s_nodup(v@),
            forall|k: int| 0 <= k < i ==> #[trigger] v@[k] != x,
        decreases v@.len() - i,
    {
        if v[i] == x {
            let ghost s0 = v@;
            v.remove(i);
            proof {
                assert(u64s_nodup(s0));
                assert(forall|j: int| 0 <= j < i ==> v@[j] == s0[j]);
                assert(forall|j: int| i <= j < v@.len() ==> v@[j] == s0[j + 1]);
                assert(u64s_nodup(v@)) by {
                    assert forall|a: int, b: int|
                        0 <= a < b < v@.len() implies v@[a] != v@[b] by {
                        let a0: int = if a < i { a } else { a + 1 };
                        let b0: int = if b < i { b } else { b + 1 };
                        assert(v@[a] == s0[a0] && v@[b] == s0[b0]);
                        assert(a0 < b0);
                        assert(s0[a0] != s0[b0]);
                    }
                }
                assert(v@.to_set() =~= s0.to_set().remove(x)) by {
                    assert forall|c: u64| v@.contains(c) <==> (s0.contains(c) && c != x) by {
                        if v@.contains(c) {
                            let k = choose|k: int| 0 <= k < v@.len() && v@[k] == c;
                            let k0: int = if k < i { k } else { k + 1 };
                            assert(s0[k0] == c);
                            if c == x {
                                assert(s0[i as int] == x);
                                assert(k0 != i);
                                assert(s0[k0] != s0[i as int]);
                            }
                        }
                        if s0.contains(c) && c != x {
                            let k = choose|k: int| 0 <= k < s0.len() && s0[k] == c;
                            if k < i {
                                assert(v@[k] == c);
                            } else {
                                assert(v@[k - 1] == c);
                            }
                        }
                    }
                }
            }
            return;
        }
        i = i + 1;
    }
    proof {
        assert(v@.to_set() =~= old(v)@.to_set().remove(x)) by {
            assert forall|c: u64| v@.contains(c) implies c != x by {
                let k = choose|k: int| 0 <= k < v@.len() && v@[k] == c;
                assert(v@[k] != x);
            }
        }
    }
}

} // verus!
