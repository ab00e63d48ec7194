//! Ordered key/value parameter maps.
//!
//! Query parameters and filter maps are kept as insertion-ordered pair
//! lists with unique keys, so that serializing the same options always
//! yields the same query string.

use vstd::prelude::*;

verus! {

/// An insertion-ordered map from parameter names to values.
///
/// Inserting an existing key overwrites its value in place; inserting a
/// new key appends it. Keys are therefore unique and keep the order in
/// which they first appeared.
#[derive(Debug)]
pub struct Params {
    items: Vec<(String, String)>,
}

impl Clone for Params {
    /// The copy holds the same entries.
    fn clone(&self) -> (r: Self)
        ensures
            r@ == self@,
    {
        let mut items: Vec<(String, String)> = Vec::new();
        let n = self.items.len();
        let mut i: usize = 0;
        while i < n
            invariant
                n == self.items.len(),
                i <= n,
                items@ == self.items@.take(i as int),
            decreases n - i,
        {
            let p = &self.items[i];
            items.push((p.0.clone(), p.1.clone()));
            proof {
                assert((p.0, p.1) == self.items@[i as int]);
                assert(items@ =~= self.items@.take(i + 1));
            }
            i += 1;
        }
        proof {
            assert(self.items@.take(n as int) =~= self.items@);
        }
        let r = Params { items };
        proof {
            assert(r@ =~= self@);
        }
        r
    }
}

impl View for Params {
    type V = Seq<(Seq<char>, Seq<char>)>;

    closed spec fn view(&self) -> Seq<(Seq<char>, Seq<char>)> {
        self.items@.map_values(|p: (String, String)| (p.0@, p.1@))
    }
}

/// Whether `s` holds pairwise-distinct keys.
pub open spec fn unique_keys(s: Seq<(Seq<char>, Seq<char>)>) -> bool {
    forall|i: int, j: int| 0 <= i < j < s.len() ==> s[i].0 != s[j].0
}

/// `s` updated at key `k` with value `v`: overwritten in place if `k` is
/// present, appended otherwise.
pub open spec fn map_insert(
    s: Seq<(Seq<char>, Seq<char>)>,
    k: Seq<char>,
    v: Seq<char>,
) -> Seq<(Seq<char>, Seq<char>)> {
    if exists|i: int| 0 <= i < s.len() && s[i].0 == k {
        s.update(choose|i: int| 0 <= i < s.len() && s[i].0 == k, (k, v))
    } else {
        s.push((k, v))
    }
}

impl Params {
    /// A map with no entries.
    pub fn new() -> (r: Params)
        ensures
            r@ == Seq::<(Seq<char>, Seq<char>)>::empty(),
            unique_keys(r@),
    {
        Params { items: Vec::new() }
    }

    /// Whether no entry has been inserted.
    pub fn is_empty(&self) -> (r: bool)
        ensures
            r == (self@.len() == 0),
    {
        self.items.len() == 0
    }

    /// The number of distinct keys.
    pub fn len(&self) -> (r: usize)
        ensures
            r == self@.len(),
    {
        self.items.len()
    }

    /// The entry at position `i`, as it will appear in the query string.
    pub fn entry(&self, i: usize) -> (r: (String, String))
        requires
            i < self@.len(),
        ensures
            (r.0@, r.1@) == self@[i as int],
    {
        let p = &self.items[i];
        (p.0.clone(), p.1.clone())
    }

    /// Set `key` to `value`, overwriting any earlier value for `key`.
    pub fn insert(&mut self, key: &str, value: String)
        requires
            unique_keys(old(self)@),
        ensures
            final(self)@ == map_insert(old(self)@, key@, value@),
            unique_keys(final(self)@),
    {
        let k: String = key.to_owned();
        let n = self.items.len();
        let mut i: usize = 0;
        while i < n
            invariant
                n == self.items.len(),
                i <= n,
                k@ == key@,
                self@ == old(self)@,
                unique_keys(self@),
                forall|j: int| 0 <= j < i ==> self@[j].0 != key@,
            decreases n - i,
        {
            if self.items[i].0 == k {
                assert(self@[i as int].0 == key@);
                self.items.set(i, (k, value));
                proof {
                    let ghost w = choose|m: int|
                        0 <= m < old(self)@.len() && old(self)@[m].0 == key@;
                    assert(old(self)@[w].0 == key@ && old(self)@[i as int].0 == key@);
                    assert(w == i as int);
                    assert(self@ =~= map_insert(old(self)@, key@, value@));
                }
                return;
            }
            i += 1;
        }
        self.items.push((k, value));
        proof {
            assert(forall|m: int| 0 <= m < old(self)@.len() ==> old(self)@[m].0 != key@);
            assert(self@ =~= map_insert(old(self)@, key@, value@));
        }
    }
}

/// What `application/x-www-form-urlencoded` serialization of a pair list
/// yields. The encoding is a pure function of the pairs.
pub uninterp spec fn urlencoded_of(pairs: Seq<(Seq<char>, Seq<char>)>) -> Seq<char>;

/// Relies on url::form_urlencoded::Serializer (new, extend_pairs, finish):
/// each pair is percent-encoded as `key=value` and the pairs are joined
/// with `&`, in order; no pairs give the empty string.
#[verifier::external_body]
fn urlencode_params(p: &Params) -> (r: String)
    ensures
        r@ == urlencoded_of(p@),
        p@.len() == 0 ==> r@.len() == 0,
{
    url::form_urlencoded::Serializer::new(String::new())
        .extend_pairs(p.items.iter().map(|q| (&q.0, &q.1)))
        .finish()
}

impl Params {

    /// Append one entry without touching earlier ones, duplicate keys
    /// allowed; repeated parameters keep their order.
    pub fn append(&mut self, key: &str, value: String)
        ensures
            final(self)@ == old(self)@.push((key@, value@)),
    {
        self.items.push((key.to_owned(), value));
        proof {
            assert(self@ =~= old(self)@.push((key@, value@)));
        }
    }

    /// The urlencoded form of the entries, empty map giving the empty
    /// string.
    pub fn to_query(&self) -> (r: String)
        ensures
            r@ == urlencoded_of(self@),
            self@.len() == 0 ==> r@.len() == 0,
    {
        urlencode_params(self)
    }

    /// The query-string form of the map: `None` when no parameter is
    /// set, else the urlencoded pairs in insertion order.
    pub fn serialize(&self) -> (r: Option<String>)
        ensures
            match r {
                Some(s) => self@.len() > 0 && s@ == urlencoded_of(self@),
                None => self@.len() == 0,
            },
    {
        if self.is_empty() {
            None
        } else {
            Some(urlencode_params(self))
        }
    }
}

} // verus!
