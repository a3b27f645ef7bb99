use vstd::prelude::*;

verus! {

/// First index at or after `i` in an association list whose key's view equals
/// `name`; declared entities are looked up by name in first-declaration order.
pub open spec fn find_key<T>(s: Seq<(String, T)>, name: Seq<char>, i: int) -> Option<int>
    decreases s.len() - i,
{
    if i < 0 || i >= s.len() {
        None
    } else if s[i].0@ == name {
        Some(i)
    } else {
        find_key(s, name, i + 1)
    }
}

/// The index a name resolves to in an association list, if any.
pub open spec fn key_at<T>(s: Seq<(String, T)>, name: Seq<char>) -> Option<int> {
    find_key(s, name, 0)
}

/// A found index carries the name, lies in range, and is the first match; a
/// miss means no entry at or after `i` carries the name.
pub proof fn lemma_find_key<T>(s: Seq<(String, T)>, name: Seq<char>, i: int)
    requires
        0 <= i,
    ensures
        match find_key(s, name, i) {
            Some(j) => i <= j < s.len() && s[j].0@ == name && (forall|k: int|
                i <= k < j ==> (#[trigger] s[k]).0@ != name),
            None => forall|k: int| i <= k < s.len() ==> (#[trigger] s[k]).0@ != name,
        },
    decreases s.len() - i,
{
    if i < 0 || i >= s.len() {
    } else if s[i].0@ == name {
    } else {
        lemma_find_key(s, name, i + 1);
    }
}

/// Name lookup only reads keys: two lists with the same keys resolve every
/// name to the same index.
pub proof fn lemma_find_key_same_keys<T, U>(
    a: Seq<(String, T)>,
    b: Seq<(String, U)>,
    name: Seq<char>,
    i: int,
)
    requires
        0 <= i,
        a.len() == b.len(),
        forall|k: int| 0 <= k < a.len() ==> (#[trigger] a[k]).0@ == b[k].0@,
    ensures
        find_key(a, name, i) == find_key(b, name, i),
    decreases a.len() - i,
{
    if i < a.len() {
        lemma_find_key_same_keys(a, b, name, i + 1);
    }
}

/// No two entries of the association list share a name: the declared
/// configuration behaves as a map.
pub open spec fn keys_unique<T>(s: Seq<(String, T)>) -> bool {
    forall|i: int, j: int| 0 <= i < j < s.len() ==> (#[trigger] s[i]).0@ != (#[trigger] s[j]).0@
}

/// Scan an association list for the first entry with the given name.
pub fn find_index<T>(entries: &Vec<(String, T)>, name: &str) -> (r: Option<usize>)
    ensures
        match r {
            Some(j) => key_at(entries@, name@) == Some(j as int),
            None => key_at(entries@, name@) is None,
        },
{
    let owned: String = name.to_owned();
    let mut i: usize = 0;
    while i < entries.len()
        invariant
            i <= entries@.len(),
            owned@ == name@,
            find_key(entries@, name@, 0) == find_key(entries@, name@, i as int),
        decreases entries@.len() - i,
    {
        if entries[i].0 == owned {
            return Some(i);
        }
        i = i + 1;
    }
    None
}

/// Borrow the value stored under a name, if any.
pub fn get_entry<'a, T>(entries: &'a Vec<(String, T)>, name: &str) -> (r: Option<&'a T>)
    ensures
        match key_at(entries@, name@) {
            Some(j) => r matches Some(v) && *v == entries@[j].1,
            None => r is None,
        },
{
    proof {
        lemma_find_key(entries@, name@, 0);
    }
    match find_index(entries, name) {
        Some(i) => Some(&entries[i].1),
        None => None,
    }
}

/// How `upsert` changes an association list: an existing entry keeps its key
/// and position and gets the new value; a fresh name is appended at the end.
pub open spec fn upsert_post<T>(
    pre: Seq<(String, T)>,
    post: Seq<(String, T)>,
    name: Seq<char>,
    value: T,
) -> bool {
    match key_at(pre, name) {
        Some(j) => post == pre.update(j, (pre[j].0, value)),
        None => {
            &&& post.len() == pre.len() + 1
            &&& post.drop_last() == pre
            &&& post.last().0@ == name
            &&& post.last().1 == value
        },
    }
}

/// Insert or overwrite the entry with the given name, preserving
/// first-declaration order and name uniqueness.
pub fn upsert<T>(entries: &mut Vec<(String, T)>, name: &str, value: T)
    ensures
        upsert_post(old(entries)@, final(entries)@, name@, value),
        keys_unique(old(entries)@) ==> keys_unique(final(entries)@),
{
    proof {
        lemma_find_key(entries@, name@, 0);
    }
    let idx = find_index(entries, name);
    match idx {
        Some(i) => {
            let e = &mut entries[i];
            e.1 = value;
            proof {
                let pre = old(entries)@;
                let post = entries@;
                assert(post =~= pre.update(i as int, (pre[i as int].0, value)));
                if keys_unique(pre) {
                    assert forall|a: int, b: int| 0 <= a < b < post.len() implies (
                    #[trigger] post[a]).0@ != (#[trigger] post[b]).0@ by {
                        assert(post[a].0 == pre[a].0);
                        assert(post[b].0 == pre[b].0);
                    }
                }
            }
        },
        None => {
            entries.push((name.to_owned(), value));
            proof {
                let pre = old(entries)@;
                let post = entries@;
                assert(post.drop_last() =~= pre);
                if keys_unique(pre) {
                    assert forall|a: int, b: int| 0 <= a < b < post.len() implies (
                    #[trigger] post[a]).0@ != (#[trigger] post[b]).0@ by {
                        if b < post.len() - 1 {
                            assert(post[a] == pre[a]);
                            assert(post[b] == pre[b]);
                        } else {
                            assert(post[a] == pre[a]);
                            assert(post[b].0@ == name@);
                        }
                    }
                }
            }
        },
    }
}

/// Generic name-keyed access to the declared entities a container owns.
pub trait Object<T>: Sized {
    /// The association list this container keeps for values of type `T`.
    spec fn entries(&self) -> Seq<(String, T)>;

    /// Look up the first declared entity with the given name.
    fn get<'a>(&'a self, name: &str) -> (r: Option<&'a T>)
        ensures
            match key_at(self.entries(), name@) {
                Some(j) => r matches Some(v) && *v == self.entries()[j].1,
                None => r is None,
            },
    ;

    /// Declare an entity under a name, overwriting an earlier declaration of
    /// the same name.
    fn add(&mut self, name: &str, value: T)
        ensures
            upsert_post(old(self).entries(), final(self).entries(), name@, value),
            keys_unique(old(self).entries()) ==> keys_unique(final(self).entries()),
    ;
}

} // verus!
