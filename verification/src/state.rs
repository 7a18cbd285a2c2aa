use vstd::prelude::*;

verus! {

/// Spec: some element of `s` has the same character content as `a`.
pub open spec fn addr_in(s: Seq<String>, a: Seq<char>) -> bool {
    exists|i: int| 0 <= i < s.len() && s[i]@ == a
}

/// Spec: no two elements of `s` have the same character content.
/// This is the roster invariant: a validator address is registered at most once.
pub open spec fn distinct_addrs(s: Seq<String>) -> bool {
    forall|i: int, j: int| 0 <= i < j < s.len() ==> s[i]@ != s[j]@
}

/// Mathematical image of the singleton state record.
#[verifier::ext_equal]
pub ghost struct StateView {
    pub counter: u64,
    pub sequence: Seq<u64>,
    pub roster: Seq<String>,
}

/// The singleton state record: the last-written scalar, the append-only
/// numeric sequence, and the roster of registered validator addresses.
pub struct State {
    pub state_num: u64,
    pub state_vector: Vec<u64>,
    pub validator_added: Vec<String>,
}

impl View for State {
    type V = StateView;

    open spec fn view(&self) -> StateView {
        StateView { counter: self.state_num, sequence: self.state_vector@, roster: self.validator_added@ }
    }
}

impl State {
    /// The roster never contains the same address twice.
    pub open spec fn wf(self) -> bool {
        distinct_addrs(self.validator_added@)
    }
}

/// Membership in a concatenation splits into membership in either part.
pub proof fn lemma_addr_in_concat(a: Seq<String>, b: Seq<String>, x: Seq<char>)
    ensures
        addr_in(a + b, x) <==> (addr_in(a, x) || addr_in(b, x)),
{
    if addr_in(a + b, x) {
        let i = choose|i: int| 0 <= i < (a + b).len() && (a + b)[i]@ == x;
        if i < a.len() {
            assert(a[i]@ == x);
        } else {
            assert(b[i - a.len()]@ == x);
        }
    }
    if addr_in(a, x) {
        let i = choose|i: int| 0 <= i < a.len() && a[i]@ == x;
        assert((a + b)[i]@ == x);
    }
    if addr_in(b, x) {
        let i = choose|i: int| 0 <= i < b.len() && b[i]@ == x;
        assert((a + b)[a.len() + i]@ == x);
    }
}

/// Linear scan for an address among `v`, comparing character content.
pub fn contains_addr(v: &Vec<String>, a: &String) -> (r: bool)
    ensures
        r == addr_in(v@, a@),
{
    let mut i: usize = 0;
    while i < v.len()
        invariant
            i <= v.len(),
            forall|t: int| 0 <= t < i ==> v@[t]@ != a@,
        decreases v.len() - i,
    {
        let x = &v[i];
        if *x == *a {
            assert(v@[i as int]@ == a@);
            return true;
        }
        i += 1;
    }
    false
}

} // verus!
