use vstd::prelude::*;
use vstd::string::StringExecFns;

verus! {

/// A header list as name/value pairs in the order in which names were first set.
pub type HeaderSeq = Seq<(Seq<char>, Seq<char>)>;

/// No name occurs twice.
pub open spec fn names_unique(hs: HeaderSeq) -> bool {
    forall|i: int, j: int| 0 <= i < j < hs.len() ==> #[trigger] hs[i].0 != #[trigger] hs[j].0
}

/// Whether some pair carries the name `k`.
pub open spec fn has_name(hs: HeaderSeq, k: Seq<char>) -> bool {
    exists|i: int| 0 <= i < hs.len() && #[trigger] hs[i].0 == k
}

/// The position of the pair named `k` (meaningful when `has_name(hs, k)`).
pub open spec fn name_pos(hs: HeaderSeq, k: Seq<char>) -> int {
    choose|i: int| 0 <= i < hs.len() && #[trigger] hs[i].0 == k
}

/// The value stored under `k`, if any.
pub open spec fn value_of(hs: HeaderSeq, k: Seq<char>) -> Option<Seq<char>> {
    if has_name(hs, k) {
        Some(hs[name_pos(hs, k)].1)
    } else {
        None
    }
}

/// The list read as a mapping from name to value.
pub open spec fn header_map(hs: HeaderSeq) -> Map<Seq<char>, Seq<char>> {
    Map::new(|k: Seq<char>| has_name(hs, k), |k: Seq<char>| hs[name_pos(hs, k)].1)
}

/// Setting `k` to `v`: an existing pair for `k` gets the new value in place, else a pair is appended.
pub open spec fn put_header(hs: HeaderSeq, k: Seq<char>, v: Seq<char>) -> HeaderSeq {
    if has_name(hs, k) {
        hs.update(name_pos(hs, k), (k, v))
    } else {
        hs.push((k, v))
    }
}

/// The header block: one `Name: Value\r\n` per pair, in order.
pub open spec fn headers_text(hs: HeaderSeq) -> Seq<char>
    decreases hs.len(),
{
    if hs.len() == 0 {
        Seq::empty()
    } else {
        headers_text(hs.drop_last()) + hs.last().0 + ": "@ + hs.last().1 + "\r\n"@
    }
}

/// Setting a header keeps names unique and acts on the mapping as an insert:
/// the last value written for a name wins and every other name keeps its value.
pub proof fn lemma_put_header(hs: HeaderSeq, k: Seq<char>, v: Seq<char>)
    requires
        names_unique(hs),
    ensures
        names_unique(put_header(hs, k, v)),
        header_map(put_header(hs, k, v)) == header_map(hs).insert(k, v),
{
    let p = put_header(hs, k, v);
    if has_name(hs, k) {
        let c = name_pos(hs, k);
        assert forall|i: int, j: int| 0 <= i < j < p.len() implies #[trigger] p[i].0
            != #[trigger] p[j].0 by {
            assert(hs[i].0 != hs[j].0);
        }
        assert forall|q: Seq<char>| #[trigger] has_name(p, q) == (q == k || has_name(hs, q)) by {
            if has_name(hs, q) {
                let i = name_pos(hs, q);
                assert(p[i].0 == q || q == k);
            }
            if has_name(p, q) {
                let i = name_pos(p, q);
                assert(hs[i].0 == q || q == k);
            }
        }
        assert forall|q: Seq<char>| has_name(p, q) && q != k implies p[name_pos(p, q)].1
            == #[trigger] hs[name_pos(hs, q)].1 by {
            assert(name_pos(p, q) == name_pos(hs, q));
        }
        assert(p[name_pos(p, k)].0 == k);
        assert(header_map(p) =~= header_map(hs).insert(k, v));
    } else {
        assert forall|i: int, j: int| 0 <= i < j < p.len() implies #[trigger] p[i].0
            != #[trigger] p[j].0 by {
            if j < hs.len() {
                assert(hs[i].0 != hs[j].0);
            } else {
                assert(p[i].0 == hs[i].0);
            }
        }
        assert forall|q: Seq<char>| #[trigger] has_name(p, q) == (q == k || has_name(hs, q)) by {
            if has_name(hs, q) {
                let i = name_pos(hs, q);
                assert(p[i].0 == q);
            }
            if q == k {
                assert(p[hs.len() as int].0 == q);
            }
            if has_name(p, q) && q != k {
                let i = name_pos(p, q);
                assert(hs[i].0 == q);
            }
        }
        assert forall|q: Seq<char>| has_name(p, q) && q != k implies p[name_pos(p, q)].1
            == #[trigger] hs[name_pos(hs, q)].1 by {
            assert(name_pos(p, q) == name_pos(hs, q));
        }
        assert(p[hs.len() as int].0 == k);
        assert(has_name(p, k));
        assert(p[name_pos(p, k)].0 == k);
        assert(name_pos(p, k) == hs.len());
        assert(header_map(p) =~= header_map(hs).insert(k, v));
    }
}

/// An ordered list of headers with unique names.
pub struct Headers {
    items: Vec<(String, String)>,
}

impl View for Headers {
    type V = HeaderSeq;

    closed spec fn view(&self) -> HeaderSeq {
        self.items@.map_values(|p: (String, String)| (p.0@, p.1@))
    }
}

impl Headers {
    /// Names are unique.
    pub open spec fn wf(&self) -> bool {
        names_unique(self@)
    }

    /// An empty list.
    pub fn new() -> (r: Self)
        ensures
            r.wf(),
            r@.len() == 0,
    {
        Headers { items: Vec::new() }
    }

    /// Sets `key` to `val`, overwriting an earlier value for the same name.
    pub fn set(&mut self, key: &str, val: &str)
        requires
            old(self).wf(),
        ensures
            final(self).wf(),
            final(self)@ == put_header(old(self)@, key@, val@),
            header_map(final(self)@) == header_map(old(self)@).insert(key@, val@),
    {
        let ghost hs = self@;
        proof {
            lemma_put_header(hs, key@, val@);
        }
        let name = key.to_owned();
        let n = self.items.len();
        let mut i: usize = 0;
        while i < n
            invariant
                n == self.items.len(),
                i <= n,
                hs == self@,
                hs == old(self)@,
                header_map(put_header(hs, key@, val@)) == header_map(hs).insert(key@, val@),
                names_unique(put_header(hs, key@, val@)),
                names_unique(hs),
                name@ == key@,
                forall|j: int| 0 <= j < i ==> #[trigger] hs[j].0 != key@,
            decreases n - i,
        {
            assert(hs[i as int].0 == self.items@[i as int].0@);
            if self.items[i].0 == name {
                proof {
                    assert(hs[i as int].0 == key@);
                    assert(name_pos(hs, key@) == i);
                }
                self.items.set(i, (name, val.to_owned()));
                assert(self@ =~= put_header(hs, key@, val@));
                return;
            }
            i = i + 1;
        }
        self.items.push((name, val.to_owned()));
        assert(self@ =~= put_header(hs, key@, val@));
    }

    /// The value of `key`, if it was set.
    pub fn get(&self, key: &str) -> (r: Option<String>)
        requires
            self.wf(),
        ensures
            r matches Some(v) ==> value_of(self@, key@) == Some(v@),
            r is None ==> value_of(self@, key@) is None,
    {
        let ghost hs = self@;
        let name = key.to_owned();
        let n = self.items.len();
        let mut i: usize = 0;
        while i < n
            invariant
                n == self.items.len(),
                i <= n,
                hs == self@,
                names_unique(hs),
                name@ == key@,
                forall|j: int| 0 <= j < i ==> #[trigger] hs[j].0 != key@,
            decreases n - i,
        {
            assert(hs[i as int] == (self.items@[i as int].0@, self.items@[i as int].1@));
            if self.items[i].0 == name {
                proof {
                    assert(hs[i as int].0 == key@);
                    assert(name_pos(hs, key@) == i);
                }
                return Some(self.items[i].1.clone());
            }
            i = i + 1;
        }
        None
    }

    /// Appends the header block, one `Name: Value\r\n` per pair, to `out`.
    pub fn write_to(&self, out: &mut String)
        ensures
            final(out)@ == old(out)@ + headers_text(self@),
    {
        let ghost hs = self@;
        let n = self.items.len();
        let mut i: usize = 0;
        while i < n
            invariant
                n == self.items.len(),
                i <= n,
                hs == self@,
                out@ == old(out)@ + headers_text(hs.subrange(0, i as int)),
            decreases n - i,
        {
            proof {
                assert(hs.subrange(0, i + 1).drop_last() =~= hs.subrange(0, i as int));
            }
            out.append(self.items[i].0.as_str());
            out.append(": ");
            out.append(self.items[i].1.as_str());
            out.append("\r\n");
            i = i + 1;
        }
        assert(hs.subrange(0, n as int) =~= hs);
    }
}

} // verus!
