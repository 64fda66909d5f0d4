//! The configured services and the plain message body of API responses.
use vstd::prelude::*;

verus! {

/// `a` comes strictly before `b` in lexicographic order of characters (which is
/// the byte order of their UTF-8 forms).
pub open spec fn name_less(a: Seq<char>, b: Seq<char>) -> bool
    decreases a.len(),
{
    if b.len() == 0 {
        false
    } else if a.len() == 0 {
        true
    } else if a[0] != b[0] {
        a[0] < b[0]
    } else {
        name_less(a.drop_first(), b.drop_first())
    }
}

/// The names held by `v`, as character sequences.
pub open spec fn names_view(v: Seq<String>) -> Seq<Seq<char>> {
    v.map_values(|s: String| s@)
}

/// Each name comes strictly before the next.
pub open spec fn strictly_sorted(names: Seq<Seq<char>>) -> bool {
    forall|i: int| 0 <= i < names.len() - 1 ==> name_less(#[trigger] names[i], names[i + 1])
}

proof fn lemma_name_less_total(a: Seq<char>, b: Seq<char>)
    requires
        a != b,
    ensures
        name_less(a, b) || name_less(b, a),
    decreases a.len(),
{
    if a.len() > 0 && b.len() > 0 && a[0] == b[0] {
        assert(a =~= seq![a[0]] + a.drop_first());
        assert(b =~= seq![b[0]] + b.drop_first());
        lemma_name_less_total(a.drop_first(), b.drop_first());
    } else if a.len() == 0 && b.len() == 0 {
        assert(a =~= b);
    }
}

fn less_than(a: &String, b: &String) -> (r: bool)
    ensures
        r == name_less(a@, b@),
{
    let la = a.as_str().unicode_len();
    let lb = b.as_str().unicode_len();
    let mut i: usize = 0;
    assert(a@.skip(0) =~= a@ && b@.skip(0) =~= b@);
    while i < la && i < lb
        invariant
            la == a@.len(),
            lb == b@.len(),
            i <= la,
            i <= lb,
            name_less(a@, b@) == name_less(a@.skip(i as int), b@.skip(i as int)),
        decreases la - i,
    {
        let ca = a.as_str().get_char(i);
        let cb = b.as_str().get_char(i);
        assert(a@.skip(i as int)[0] == ca && b@.skip(i as int)[0] == cb);
        if ca != cb {
            return ca < cb;
        }
        assert(a@.skip(i as int).drop_first() =~= a@.skip(i + 1));
        assert(b@.skip(i as int).drop_first() =~= b@.skip(i + 1));
        i = i + 1;
    }
    i < lb
}

/// The distinct names of `names`, in strictly increasing order.
pub fn sorted_unique(names: &Vec<String>) -> (r: Vec<String>)
    ensures
        strictly_sorted(names_view(r@)),
        names_view(r@).to_set() == names_view(names@).to_set(),
{
    let mut out: Vec<String> = Vec::new();
    let mut i: usize = 0;
    while i < names.len()
        invariant
            i <= names@.len(),
            strictly_sorted(names_view(out@)),
            names_view(out@).to_set() == names_view(names@.take(i as int)).to_set(),
        decreases names@.len() - i,
    {
        let name = &names[i];
        let ghost before = names_view(out@);
        let mut p: usize = 0;
        while p < out.len() && less_than(&out[p], name)
            invariant
                p <= out@.len(),
                before == names_view(out@),
                forall|k: int| 0 <= k < p ==> name_less(#[trigger] out@[k]@, name@),
            decreases out@.len() - p,
        {
            p = p + 1;
        }
        let ghost old_prefix = names_view(names@.take(i as int));
        assert(names_view(names@.take(i + 1)) =~= old_prefix.push(name@));
        proof {
            old_prefix.lemma_push_to_set_commute(name@);
        }
        if p < out.len() && out[p] == *name {
            assert(before[p as int] == name@);
            assert(before.to_set().contains(name@));
            assert(before.to_set().insert(name@) =~= before.to_set());
        } else {
            proof {
                if p < out@.len() {
                    lemma_name_less_total(out@[p as int]@, name@);
                }
                if p > 0 {
                    assert(name_less(out@[p - 1]@, name@));
                }
            }
            out.insert(p, name.clone());
            let ghost after = names_view(out@);
            assert(after =~= before.insert(p as int, name@));
            assert forall|k: int| 0 <= k < after.len() - 1 implies name_less(#[trigger] after[k], after[k + 1]) by {
                if k + 1 < p {
                    assert(after[k] == before[k] && after[k + 1] == before[k + 1]);
                } else if k > p {
                    assert(after[k] == before[k - 1] && after[k + 1] == before[k]);
                }
            }
            assert forall|x: Seq<char>| after.contains(x) <==> before.contains(x) || x == name@ by {
                if after.contains(x) {
                    let k = choose|k: int| 0 <= k < after.len() && after[k] == x;
                    if k < p {
                        assert(before[k] == x);
                    } else if k > p {
                        assert(before[k - 1] == x);
                    }
                }
                if before.contains(x) {
                    let k = choose|k: int| 0 <= k < before.len() && before[k] == x;
                    if k < p {
                        assert(after[k] == x);
                    } else {
                        assert(after[k + 1] == x);
                    }
                }
                if x == name@ {
                    assert(after[p as int] == x);
                }
            }
            assert(after.to_set() =~= before.to_set().insert(name@));
        }
        i = i + 1;
    }
    assert(names@.take(i as int) =~= names@);
    out
}

/// One proxied service: it listens on `from` and dials `to`.
#[derive(Debug)]
pub struct ServiceInfo {
    pub service_name: String,
    pub from: String,
    pub to: String,
}

/// The services that the proxy runs.
#[derive(Debug)]
pub struct ProxyConfig {
    pub services: Vec<ServiceInfo>,
}

/// A response body that carries only a message.
#[derive(Debug)]
pub struct ServerResponse {
    pub message: String,
}

impl ProxyConfig {
    /// The names of the configured services, in configuration order.
    pub fn service_names(&self) -> (r: Vec<String>)
        ensures
            r@.len() == self.services@.len(),
            forall|i: int| 0 <= i < r@.len() ==> r@[i]@ == self.services@[i].service_name@,
    {
        let mut out: Vec<String> = Vec::new();
        let mut i: usize = 0;
        while i < self.services.len()
            invariant
                i <= self.services@.len(),
                out@.len() == i,
                forall|k: int| 0 <= k < i ==> out@[k]@ == self.services@[k].service_name@,
            decreases self.services@.len() - i,
        {
            out.push(self.services[i].service_name.clone());
            i = i + 1;
        }
        out
    }
}

} // verus!
