//! The local identities of a node, by short id and by tag.

use crate::crypto::ed25519_public_key;
use crate::node_id::{bytes32_eq, short_id_of, AdnlNodeIdShort, StoredAdnlNodeKey};
use crate::table::Table;
use vstd::prelude::*;

verus! {

/// Why the key store refused a request.
#[derive(Debug, Copy, Clone, PartialEq, Eq, Structural)]
pub enum AdnlKeystoreError {
    /// No key has this short id.
    KeyIdNotFound,
    /// No key has this tag.
    KeyTagNotFound,
    /// The tag belongs to another key.
    DuplicatedKeyTag,
    /// The key is stored already, under another tag.
    DuplicatedKey,
    /// The tag given does not belong to the key that was to be deleted.
    UnexpectedKey,
}

/// A tag with the short id of the key it names.
#[derive(Debug, Copy, Clone)]
pub struct TaggedKey {
    pub tag: usize,
    pub id: [u8; 32],
}

/// The short id that a tag names in a list of tags: that of the first entry
/// with the tag.
pub open spec fn tagged_id(tags: Seq<TaggedKey>, tag: usize) -> Option<Seq<u8>>
    decreases tags.len(),
{
    if tags.len() == 0 {
        None
    } else if tags[0].tag == tag {
        Some(tags[0].id@)
    } else {
        tagged_id(tags.skip(1), tag)
    }
}

/// The position of the first entry with a tag.
pub open spec fn tag_position(tags: Seq<TaggedKey>, tag: usize) -> Option<int>
    decreases tags.len(),
{
    if tags.len() == 0 {
        None
    } else if tags[0].tag == tag {
        Some(0int)
    } else {
        match tag_position(tags.skip(1), tag) {
            Some(i) => Some(i + 1),
            None => None,
        }
    }
}

/// The first entry with a tag stands at its position, and no entry before
/// it has the tag.
pub proof fn lemma_tag_position(tags: Seq<TaggedKey>, tag: usize)
    ensures
        match tag_position(tags, tag) {
            Some(i) => 0 <= i < tags.len() && tags[i].tag == tag && tagged_id(tags, tag) == Some(
                tags[i].id@,
            ) && forall|j: int| 0 <= j < i ==> tags[j].tag != tag,
            None => tagged_id(tags, tag) is None && forall|j: int|
                0 <= j < tags.len() ==> tags[j].tag != tag,
        },
    decreases tags.len(),
{
    if tags.len() > 0 && tags[0].tag != tag {
        lemma_tag_position(tags.skip(1), tag);
        match tag_position(tags.skip(1), tag) {
            Some(i) => {
                assert(tags.skip(1)[i] == tags[i + 1]);
                assert forall|j: int| 0 <= j < i + 1 implies tags[j].tag != tag by {
                    if j > 0 {
                        assert(tags.skip(1)[j - 1] == tags[j]);
                    }
                }
            },
            None => {
                assert forall|j: int| 0 <= j < tags.len() implies tags[j].tag != tag by {
                    if j > 0 {
                        assert(tags.skip(1)[j - 1] == tags[j]);
                    }
                }
            },
        }
    }
}

/// Whether the keys and tags `after` and the result `r` are what adding the
/// identity of a secret key under a tag leads to.
pub open spec fn added_key(
    keys: Map<Seq<u8>, StoredAdnlNodeKey>,
    tags: Seq<TaggedKey>,
    keys_after: Map<Seq<u8>, StoredAdnlNodeKey>,
    tags_after: Seq<TaggedKey>,
    r: Result<AdnlNodeIdShort, AdnlKeystoreError>,
    key: Seq<u8>,
    tag: usize,
) -> bool {
    let id = short_id_of(ed25519_public_key(key)@);
    match tagged_id(tags, tag) {
        Some(known) => {
            &&& tags_after == tags
            &&& keys_after == keys
            &&& if known == id {
                r matches Ok(got) && got@ == id
            } else {
                r matches Err(e) && e == AdnlKeystoreError::DuplicatedKeyTag
            }
        },
        None => {
            &&& tags_after.len() == tags.len() + 1
            &&& tags_after.drop_last() == tags
            &&& tags_after.last().tag == tag
            &&& tags_after.last().id@ == id
            &&& if keys.contains_key(id) {
                &&& r matches Err(e) && e == AdnlKeystoreError::DuplicatedKey
                &&& keys_after == keys
            } else {
                &&& r matches Ok(got) && got@ == id
                &&& keys_after.contains_key(id)
                &&& keys_after[id].spec_private_key() == key
                &&& keys_after == keys.insert(id, keys_after[id])
            }
        },
    }
}

/// Whether the keys and tags `after` and the result `r` are what removing a
/// key and the tag given for it leads to.
pub open spec fn deleted_key(
    keys: Map<Seq<u8>, StoredAdnlNodeKey>,
    tags: Seq<TaggedKey>,
    keys_after: Map<Seq<u8>, StoredAdnlNodeKey>,
    tags_after: Seq<TaggedKey>,
    r: Result<bool, AdnlKeystoreError>,
    key: Seq<u8>,
    tag: usize,
) -> bool {
    &&& keys_after == keys.remove(key)
    &&& tags_after == match tag_position(tags, tag) {
        Some(i) => tags.remove(i),
        None => tags,
    }
    &&& match tagged_id(tags, tag) {
        Some(named) if named != key => r matches Err(e) && e == AdnlKeystoreError::UnexpectedKey,
        _ => r matches Ok(removed) && removed == keys.contains_key(key),
    }
}

/// The key store of a node.
pub struct AdnlKeystore {
    keys: Table<StoredAdnlNodeKey>,
    tags: Vec<TaggedKey>,
}

impl AdnlKeystore {
    /// The keys by short id.
    pub closed spec fn spec_keys(&self) -> Map<Seq<u8>, StoredAdnlNodeKey> {
        self.keys@
    }

    /// The tags in the order in which they were given.
    pub closed spec fn spec_tags(&self) -> Seq<TaggedKey> {
        self.tags@
    }

    /// Every key is stored under its own short id and is consistent.
    pub closed spec fn wf(&self) -> bool {
        &&& self.keys.wf()
        &&& forall|id: Seq<u8>| #[trigger]
            self.keys@.contains_key(id) ==> self.keys@[id].wf() && self.keys@[id].spec_id() == id
    }

    /// An empty key store.
    pub fn new() -> (store: Self)
        ensures
            store.wf(),
            store.spec_tags() == Seq::<TaggedKey>::empty(),
            forall|id: Seq<u8>| !store.spec_keys().contains_key(id),
    {
        Self { keys: Table::new(), tags: Vec::new() }
    }

    /// The table of keys by short id.
    pub fn keys(&self) -> (keys: &Table<StoredAdnlNodeKey>)
        requires
            self.wf(),
        ensures
            keys@ == self.spec_keys(),
            keys.wf(),
            forall|id: Seq<u8>| #[trigger]
                keys@.contains_key(id) ==> keys@[id].wf() && keys@[id].spec_id() == id,
    {
        &self.keys
    }

    /// The key with a short id.
    pub fn key_by_id(&self, id: &AdnlNodeIdShort) -> (r: Result<
        &StoredAdnlNodeKey,
        AdnlKeystoreError,
    >)
        requires
            self.wf(),
        ensures
            match r {
                Ok(key) => self.spec_keys().contains_key(id@) && *key == self.spec_keys()[id@]
                    && key.wf() && key.spec_id() == id@,
                Err(e) => !self.spec_keys().contains_key(id@) && e
                    == AdnlKeystoreError::KeyIdNotFound,
            },
    {
        match self.keys.get(id.as_slice()) {
            Some(key) => Ok(key),
            None => Err(AdnlKeystoreError::KeyIdNotFound),
        }
    }

    /// The position of the first entry with a tag.
    fn find_tag(&self, tag: usize) -> (at: Option<usize>)
        ensures
            match at {
                Some(i) => tag_position(self.tags@, tag) == Some(i as int),
                None => tag_position(self.tags@, tag) is None,
            },
    {
        let mut i: usize = 0;
        assert(self.tags@.skip(0) =~= self.tags@);
        while i < self.tags.len()
            invariant
                i <= self.tags@.len(),
                tag_position(self.tags@, tag) == match tag_position(self.tags@.skip(i as int), tag) {
                    Some(j) => Some(j + i),
                    None => None,
                },
            decreases self.tags@.len() - i,
        {
            let ghost rest = self.tags@.skip(i as int);
            assert(rest[0] == self.tags@[i as int]);
            assert(rest.skip(1) =~= self.tags@.skip(i + 1));
            if self.tags[i].tag == tag {
                return Some(i);
            }
            i += 1;
        }
        None
    }

    /// The key that a tag names.
    pub fn key_by_tag(&self, tag: usize) -> (r: Result<&StoredAdnlNodeKey, AdnlKeystoreError>)
        requires
            self.wf(),
        ensures
            match r {
                Ok(key) => tagged_id(self.spec_tags(), tag) matches Some(id)
                    && self.spec_keys().contains_key(id) && *key == self.spec_keys()[id],
                Err(e) => e == if tagged_id(self.spec_tags(), tag) is None {
                    AdnlKeystoreError::KeyTagNotFound
                } else {
                    AdnlKeystoreError::KeyIdNotFound
                } && !(tagged_id(self.spec_tags(), tag) matches Some(id)
                    && self.spec_keys().contains_key(id)),
            },
    {
        proof {
            lemma_tag_position(self.tags@, tag);
        }
        match self.find_tag(tag) {
            Some(i) => match self.keys.get(&self.tags[i].id) {
                Some(key) => Ok(key),
                None => Err(AdnlKeystoreError::KeyIdNotFound),
            },
            None => Err(AdnlKeystoreError::KeyTagNotFound),
        }
    }

    /// Adds the identity of a secret key under a tag and returns its short
    /// id. A tag that names this key already changes nothing; a tag that
    /// names another key is refused. A new tag is noted, and then the key is
    /// stored unless it is stored already.
    pub fn add_key(&mut self, key: [u8; 32], tag: usize) -> (r: Result<
        AdnlNodeIdShort,
        AdnlKeystoreError,
    >)
        requires
            old(self).wf(),
        ensures
            final(self).wf(),
            added_key(
                old(self).spec_keys(),
                old(self).spec_tags(),
                final(self).spec_keys(),
                final(self).spec_tags(),
                r,
                key@,
                tag,
            ),
    {
        let stored = StoredAdnlNodeKey::from_private_key(key);
        let id = *stored.id();
        proof {
            lemma_tag_position(self.tags@, tag);
        }
        match self.find_tag(tag) {
            Some(i) => {
                if bytes32_eq(&self.tags[i].id, id.as_slice()) {
                    Ok(id)
                } else {
                    Err(AdnlKeystoreError::DuplicatedKeyTag)
                }
            },
            None => {
                self.tags.push(TaggedKey { tag, id: id.0 });
                assert(self.tags@.drop_last() =~= old(self).tags@);
                if self.keys.contains_key(id.as_slice()) {
                    Err(AdnlKeystoreError::DuplicatedKey)
                } else {
                    let _ = self.keys.insert(id.0, stored);
                    Ok(id)
                }
            },
        }
    }

    /// Removes a key and the tag given for it. Tells whether the key was
    /// stored. Where the tag names another key, the tag is removed all the
    /// same and an error is returned.
    pub fn delete_key(&mut self, key: &AdnlNodeIdShort, tag: usize) -> (r: Result<
        bool,
        AdnlKeystoreError,
    >)
        requires
            old(self).wf(),
        ensures
            final(self).wf(),
            deleted_key(
                old(self).spec_keys(),
                old(self).spec_tags(),
                final(self).spec_keys(),
                final(self).spec_tags(),
                r,
                key@,
                tag,
            ),
    {
        let removed = self.keys.remove(key.as_slice()).is_some();
        proof {
            lemma_tag_position(self.tags@, tag);
        }
        match self.find_tag(tag) {
            Some(i) => {
                let entry = self.tags.remove(i);
                if !bytes32_eq(&entry.id, key.as_slice()) {
                    return Err(AdnlKeystoreError::UnexpectedKey);
                }
            },
            None => {},
        }
        Ok(removed)
    }
}

} // verus!
