//! What the dev pipeline remembers of its writes.

use vstd::prelude::*;

use crate::page::PageId;
use crate::path::{parts, same_path, Part};
use crate::path_map::PathMap;
use crate::text::copy_str;

verus! {

/// What was last written to each output path, and where each page was last
/// written.
#[derive(Debug)]
pub struct WriteCache {
    last_bytes: PathMap<Vec<u8>>,
    last_output_path: PathMap<String>,
}

/// What a [`WriteCache`] remembers.
#[verifier::ext_equal]
pub struct Written {
    /// The bytes last written to an output path.
    pub bytes: Map<Seq<Part>, Seq<u8>>,
    /// The output path of a page.
    pub outputs: Map<Seq<Part>, Seq<char>>,
}

impl Written {
    /// Nothing is remembered.
    pub open spec fn nothing() -> Written {
        Written { bytes: Map::empty(), outputs: Map::empty() }
    }

    /// Writing `content` to `dest` would change what is there.
    pub open spec fn differs(self, dest: Seq<char>, content: Seq<u8>) -> bool {
        !(self.bytes.contains_key(parts(dest)) && self.bytes[parts(dest)] == content)
    }

    /// Where the page was last written, if that is another path than `dest`.
    pub open spec fn moved_from(self, page: Seq<Part>, dest: Seq<char>) -> Option<Seq<char>> {
        if self.outputs.contains_key(page) && parts(self.outputs[page]) != parts(dest) {
            Some(self.outputs[page])
        } else {
            None
        }
    }

    /// `content` is what is at `dest`.
    pub open spec fn with_bytes(self, dest: Seq<char>, content: Seq<u8>) -> Written {
        Written { bytes: self.bytes.insert(parts(dest), content), ..self }
    }

    /// The page is at `dest`.
    pub open spec fn with_page(self, page: Seq<Part>, dest: Seq<char>) -> Written {
        Written { outputs: self.outputs.insert(page, dest), ..self }
    }

    /// Nothing is remembered of the path any more.
    pub open spec fn evicted(self, path: Seq<char>) -> Written {
        Written {
            bytes: self.bytes.remove(parts(path)),
            outputs: self.outputs.restrict(
                Set::new(
                    |k: Seq<Part>|
                        self.outputs.contains_key(k) && parts(self.outputs[k]) != parts(path),
                ),
            ),
        }
    }
}

impl View for WriteCache {
    type V = Written;

    closed spec fn view(&self) -> Written {
        Written {
            bytes: self.last_bytes@.map_values(|b: Vec<u8>| b@),
            outputs: self.last_output_path@.map_values(|p: String| p@),
        }
    }
}

fn same_bytes(a: &Vec<u8>, b: &Vec<u8>) -> (r: bool)
    ensures
        r == (a@ == b@),
{
    if a.len() != b.len() {
        return false;
    }
    let mut i: usize = 0;
    while i < a.len()
        invariant
            i <= a@.len(),
            a@.len() == b@.len(),
            forall|k: int| 0 <= k < i ==> a@[k] == b@[k],
        decreases a@.len() - i,
    {
        if a[i] != b[i] {
            return false;
        }
        i = i + 1;
    }
    assert(a@ =~= b@);
    true
}

impl WriteCache {
    /// A cache that remembers nothing.
    pub fn new() -> (r: WriteCache)
        ensures
            r@ == Written::nothing(),
    {
        let r = WriteCache { last_bytes: PathMap::new(), last_output_path: PathMap::new() };
        assert(r@ =~= Written::nothing());
        r
    }

    /// Whether writing `content` to `dest` would change what is there.
    pub fn needs_write(&self, dest: &str, content: &Vec<u8>) -> (r: bool)
        ensures
            r == self@.differs(dest@, content@),
    {
        match self.last_bytes.get(dest) {
            Some(prev) => !same_bytes(prev, content),
            None => true,
        }
    }

    /// Where the page was last written, if that is another path than `dest`.
    pub fn stale_path(&self, page: &PageId, dest: &str) -> (r: Option<String>)
        ensures
            match r {
                Some(p) => self@.moved_from(page.key(), dest@) == Some(p@),
                None => self@.moved_from(page.key(), dest@) is None,
            },
    {
        match self.last_output_path.get(page.path()) {
            Some(prev) => if same_path(prev.as_str(), dest) {
                None
            } else {
                Some(prev.clone())
            },
            None => None,
        }
    }

    /// Remembers that `content` was written to `dest`. To be called only once
    /// the write has succeeded.
    pub fn commit_bytes(&mut self, dest: &str, content: Vec<u8>)
        ensures
            final(self)@ == old(self)@.with_bytes(dest@, content@),
    {
        self.last_bytes.insert(copy_str(dest), content);
        assert(self@ =~= old(self)@.with_bytes(dest@, content@));
    }

    /// Remembers that the page is at `dest`. To be called only once the write
    /// has succeeded.
    pub fn commit_page(&mut self, page: &PageId, dest: &str)
        ensures
            final(self)@ == old(self)@.with_page(page.key(), dest@),
    {
        let key = copy_str(page.path());
        self.last_output_path.insert(key, copy_str(dest));
        assert(self@ =~= old(self)@.with_page(page.key(), dest@));
    }

    /// Forgets the path: what was written to it, and that any page is there.
    pub fn evict_path(&mut self, path: &str)
        ensures
            final(self)@ == old(self)@.evicted(path@),
    {
        self.last_bytes.remove(path);
        self.last_output_path.remove_value(path);
        assert(self@ =~= old(self)@.evicted(path@));
    }

    /// Forgets everything.
    pub fn clear(&mut self)
        ensures
            final(self)@ == Written::nothing(),
    {
        self.last_bytes = PathMap::new();
        self.last_output_path = PathMap::new();
        assert(self@ =~= Written::nothing());
    }
}

/// What was evicted has to be written again: neither its bytes nor any page is
/// remembered at an evicted path, and nothing else is forgotten.
pub proof fn lemma_eviction(cache: Written, path: Seq<char>, content: Seq<u8>, page: Seq<Part>)
    ensures
        cache.evicted(path).differs(path, content),
        cache.evicted(path).outputs.contains_key(page) ==> parts(cache.evicted(path).outputs[page])
            != parts(path),
        cache.outputs.contains_key(page) && parts(cache.outputs[page]) != parts(path)
            ==> cache.evicted(path).outputs.contains_key(page) && cache.evicted(path).outputs[page]
            == cache.outputs[page],
        forall|other: Seq<char>|
            parts(other) != parts(path) ==> #[trigger] cache.evicted(path).differs(other, content)
                == cache.differs(other, content),
{
}

/// Writing the same bytes to the same path a second time is no change, and a
/// write to one path changes nothing for another.
pub proof fn lemma_commit_deduplicates(
    cache: Written,
    dest: Seq<char>,
    content: Seq<u8>,
    other: Seq<char>,
    more: Seq<u8>,
)
    ensures
        ({
            let after = cache.with_bytes(dest, content);
            &&& !after.differs(dest, content)
            &&& more != content ==> after.differs(dest, more)
            &&& parts(other) != parts(dest) ==> after.differs(other, more) == cache.differs(
                other,
                more,
            )
        }),
{
}

} // verus!
