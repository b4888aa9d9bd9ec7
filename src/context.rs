use vstd::prelude::*;

verus! {

/// The variable store: loaded texts by name.
///
/// Entries are kept as pairs, each name at most once.
pub struct Context {
    data: Vec<(String, String)>,
}

impl Context {
    pub closed spec fn wf(&self) -> bool {
        forall|i: int, j: int|
            0 <= i < j < self.data@.len() ==> (#[trigger] self.data@[i]).0@ != (
            #[trigger] self.data@[j]).0@
    }

    pub closed spec fn holds(&self, key: Seq<char>) -> bool {
        exists|i: int| 0 <= i < self.data@.len() && (#[trigger] self.data@[i]).0@ == key
    }

    /// The text stored under `key`, if any.
    pub closed spec fn get(&self, key: Seq<char>) -> Option<Seq<char>> {
        if self.holds(key) {
            Some(
                self.data@[choose|i: int|
                    0 <= i < self.data@.len() && (#[trigger] self.data@[i]).0@ == key].1@,
            )
        } else {
            None
        }
    }

    pub fn new() -> (r: Context)
        ensures
            r.wf(),
            forall|k: Seq<char>| r.get(k) is None,
    {
        Context { data: Vec::new() }
    }

    fn index_of(&self, key: &str) -> (r: Option<usize>)
        requires
            self.wf(),
        ensures
            match r {
                Some(i) => i < self.data@.len() && self.data@[i as int].0@ == key@,
                None => !self.holds(key@),
            },
    {
        let wanted = key.to_owned();
        let mut i: usize = 0;
        while i < self.data.len()
            invariant
                wanted@ == key@,
                i <= self.data@.len(),
                forall|m: int| 0 <= m < i ==> self.data@[m].0@ != key@,
            decreases self.data.len() - i,
        {
            if self.data[i].0 == wanted {
                return Some(i);
            }
            i += 1;
        }
        None
    }

    /// Stores `value` under `key`, replacing what was there.
    pub fn set(&mut self, key: String, value: String)
        requires
            old(self).wf(),
        ensures
            final(self).wf(),
            final(self).get(key@) == Some(value@),
            forall|k: Seq<char>| k != key@ ==> final(self).get(k) == old(self).get(k),
    {
        let ghost old_data = self.data@;
        match self.index_of(key.as_str()) {
            Some(i) => {
                let ghost kv = key@;
                self.data.set(i, (key, value));
                assert(self.data@[i as int].0@ == kv);
                assert forall|k: Seq<char>| k != kv implies self.get(k) == old(self).get(k) by {
                    if self.holds(k) {
                        let j = choose|j: int| 0 <= j < self.data@.len() && (#[trigger] self.data@[j]).0@ == k;
                        assert(old_data[j] == self.data@[j]);
                        assert(old(self).holds(k));
                    }
                    if old(self).holds(k) {
                        let j = choose|j: int| 0 <= j < old_data.len() && (#[trigger] old_data[j]).0@ == k;
                        assert(old_data[j] == self.data@[j]);
                        assert(self.holds(k));
                    }
                }
            },
            None => {
                let ghost kv = key@;
                self.data.push((key, value));
                let ghost last = self.data@.len() - 1;
                assert(self.data@[last].0@ == kv);
                assert forall|k: Seq<char>| k != kv implies self.get(k) == old(self).get(k) by {
                    if self.holds(k) {
                        let j = choose|j: int| 0 <= j < self.data@.len() && (#[trigger] self.data@[j]).0@ == k;
                        assert(old_data[j] == self.data@[j]);
                        assert(old(self).holds(k));
                    }
                    if old(self).holds(k) {
                        let j = choose|j: int| 0 <= j < old_data.len() && (#[trigger] old_data[j]).0@ == k;
                        assert(old_data[j] == self.data@[j]);
                        assert(self.holds(k));
                    }
                }
            },
        }
    }

    /// A copy of the text stored under `key`.
    pub fn load(&self, key: &str) -> (r: Option<String>)
        requires
            self.wf(),
        ensures
            match self.get(key@) {
                Some(v) => r matches Some(s) && s@ == v,
                None => r is None,
            },
    {
        match self.index_of(key) {
            Some(i) => Some(self.data[i].1.clone()),
            None => None,
        }
    }
}

} // verus!
