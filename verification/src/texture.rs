use vstd::prelude::*;

verus! {

/// Most textures the renderer keeps.
pub const MAX_TEXTURES: usize = 64;

/// Most source-pixel bytes the kept textures hold (4 MiB).
pub const MAX_TEXTURE_BYTES: u64 = 4194304;

/// A kept texture: its image key, width, height and source-pixel bytes.
pub type TextureEntry = (u64, u32, u32, usize);

/// Where an image's texture comes from.
#[derive(Clone, Copy, Debug, PartialEq, Eq, Structural)]
pub enum CacheSlot {
    /// The texture kept at this position is reused.
    Hit(usize),
    /// The oldest `evict` textures go, and a new texture is appended.
    Insert { evict: usize },
}

/// Whether a kept texture was made from the image `key` names.
pub open spec fn same_image(e: TextureEntry, key: (u64, u32, u32)) -> bool {
    e.0 == key.0 && e.1 == key.1 && e.2 == key.2
}

/// Source-pixel bytes held by `s`.
pub open spec fn held_bytes(s: Seq<TextureEntry>) -> int
    decreases s.len(),
{
    if s.len() == 0 { 0 } else { s[0].3 + held_bytes(s.drop_first()) }
}

/// Whether, once the oldest `k` textures are gone, the rest number under 64
/// and leave room for `bytes` more within 4 MiB.
pub open spec fn leaves_room(c: Seq<TextureEntry>, k: int, bytes: int) -> bool {
    &&& c.len() - k < MAX_TEXTURES
    &&& held_bytes(c.skip(k)) + bytes <= MAX_TEXTURE_BYTES
}

proof fn lemma_held_step(c: Seq<TextureEntry>, k: int)
    requires
        0 <= k < c.len(),
    ensures
        held_bytes(c.skip(k)) == c[k].3 + held_bytes(c.skip(k + 1)),
{
    assert(c.skip(k).drop_first() =~= c.skip(k + 1));
}

proof fn lemma_held_nonneg(s: Seq<TextureEntry>)
    ensures
        held_bytes(s) >= 0,
    decreases s.len(),
{
    if s.len() > 0 {
        lemma_held_nonneg(s.drop_first());
    }
}

/// Removing more of the oldest textures never takes room away.
proof fn lemma_room_monotone(c: Seq<TextureEntry>, k: int, k2: int, bytes: int)
    requires
        0 <= k <= k2 <= c.len(),
        leaves_room(c, k, bytes),
    ensures
        leaves_room(c, k2, bytes),
    decreases k2 - k,
{
    if k < k2 {
        lemma_held_step(c, k);
        lemma_room_monotone(c, k + 1, k2, bytes);
    }
}

/// The first kept texture of the image `key`.
pub open spec fn first_same(c: Seq<TextureEntry>, key: (u64, u32, u32)) -> Option<int>
    decreases c.len(),
{
    if c.len() == 0 {
        None
    } else {
        match first_same(c.drop_last(), key) {
            Some(i) => Some(i),
            None => if same_image(c.last(), key) { Some(c.len() - 1) } else { None },
        }
    }
}

/// The fewest oldest textures whose eviction leaves room, searched from `k`.
pub open spec fn fewest_evicted(c: Seq<TextureEntry>, bytes: int, k: int) -> int
    decreases c.len() - k,
{
    if k >= c.len() || leaves_room(c, k, bytes) { k } else { fewest_evicted(c, bytes, k + 1) }
}

/// Where the texture of `key` comes from (see `texture_slot`).
pub open spec fn texture_slot_spec(c: Seq<TextureEntry>, key: (u64, u32, u32), bytes: int) -> CacheSlot {
    match first_same(c, key) {
        Some(i) => CacheSlot::Hit(i as usize),
        None => CacheSlot::Insert { evict: fewest_evicted(c, bytes, 0) as usize },
    }
}

/// Adding a texture adds its bytes.
proof fn lemma_held_push(s: Seq<TextureEntry>, e: TextureEntry)
    ensures
        held_bytes(s.push(e)) == held_bytes(s) + e.3,
    decreases s.len(),
{
    if s.len() > 0 {
        assert(s.push(e).drop_first() =~= s.drop_first().push(e));
        lemma_held_push(s.drop_first(), e);
    } else {
        assert(s.push(e).drop_first() =~= s);
    }
}

proof fn lemma_first_same(c: Seq<TextureEntry>, key: (u64, u32, u32), i: int)
    requires
        0 <= i <= c.len(),
        forall|j: int| 0 <= j < i ==> !same_image(#[trigger] c[j], key),
    ensures
        i < c.len() && same_image(c[i], key) ==> first_same(c, key) == Some(i),
        i == c.len() ==> first_same(c, key) is None,
    decreases c.len(),
{
    if c.len() > 0 {
        let rest = c.drop_last();
        if i < c.len() && i < rest.len() {
            lemma_first_same(rest, key, i);
        } else {
            lemma_first_same(rest, key, rest.len() as int);
        }
    }
}

proof fn lemma_fewest_evicted(c: Seq<TextureEntry>, bytes: int, k: int, k0: int)
    requires
        0 <= k <= k0 <= c.len(),
        forall|j: int| k <= j < k0 ==> !leaves_room(c, j, bytes),
        leaves_room(c, k0, bytes) || k0 == c.len(),
    ensures
        fewest_evicted(c, bytes, k) == k0,
    decreases k0 - k,
{
    if k < k0 {
        lemma_fewest_evicted(c, bytes, k + 1, k0);
    }
}

/// Chooses the texture for an image: the first kept texture of the same image
/// and size, or else a new one after evicting the fewest oldest textures that
/// leave fewer than 64 and at most 4 MiB less `bytes` (all of them when even
/// that is not enough).
pub fn texture_slot(cache: &Vec<TextureEntry>, key: (u64, u32, u32), bytes: usize) -> (r: CacheSlot)
    ensures
        r == texture_slot_spec(cache@, key, bytes as int),
        match r {
            CacheSlot::Hit(i) => i < cache@.len() && same_image(cache@[i as int], key)
                && forall|j: int| 0 <= j < i ==> !same_image(#[trigger] cache@[j], key),
            CacheSlot::Insert { evict } => {
                &&& forall|j: int| 0 <= j < cache@.len() ==> !same_image(#[trigger] cache@[j], key)
                &&& evict <= cache@.len()
                &&& (leaves_room(cache@, evict as int, bytes as int) || evict == cache@.len())
                &&& forall|k: int| 0 <= k < evict ==> !leaves_room(cache@, k, bytes as int)
            },
        },
{
    let mut i: usize = 0;
    while i < cache.len()
        invariant
            i <= cache@.len(),
            forall|j: int| 0 <= j < i ==> !same_image(#[trigger] cache@[j], key),
        decreases cache@.len() - i,
    {
        let e = cache[i];
        if e.0 == key.0 && e.1 == key.1 && e.2 == key.2 {
            proof {
                lemma_first_same(cache@, key, i as int);
            }
            return CacheSlot::Hit(i);
        }
        i = i + 1;
    }
    let ghost c = cache@;
    proof {
        lemma_first_same(c, key, c.len() as int);
    }
    let len = cache.len();
    let mut k: usize = len;
    let mut held: u128 = 0;
    proof {
        assert(c.skip(len as int).len() == 0);
    }
    if (bytes as u128) > (MAX_TEXTURE_BYTES as u128) {
        proof {
            assert forall|j: int| 0 <= j < len implies !leaves_room(c, j, bytes as int) by {
                if leaves_room(c, j, bytes as int) {
                    lemma_held_nonneg(c.skip(j));
                }
            }
            lemma_fewest_evicted(c, bytes as int, 0, len as int);
        }
        return CacheSlot::Insert { evict: len };
    }
    while k > 0 && len - (k - 1) < MAX_TEXTURES
        && held + (cache[k - 1].3 as u128) + (bytes as u128) <= (MAX_TEXTURE_BYTES as u128)
        invariant
            c == cache@,
            len == c.len(),
            k <= len,
            held == held_bytes(c.skip(k as int)),
            leaves_room(c, k as int, bytes as int),
        decreases k,
    {
        proof {
            lemma_held_step(c, k - 1);
        }
        held = held + (cache[k - 1].3 as u128);
        k = k - 1;
    }
    proof {
        if k > 0 {
            lemma_held_step(c, k - 1);
            assert(!leaves_room(c, k - 1, bytes as int));
            assert forall|j: int| 0 <= j < k implies !leaves_room(c, j, bytes as int) by {
                if leaves_room(c, j, bytes as int) {
                    lemma_room_monotone(c, j, k - 1, bytes as int);
                }
            }
        }
        lemma_fewest_evicted(c, bytes as int, 0, k as int);
    }
    CacheSlot::Insert { evict: k }
}

/// The renderer's kept textures, oldest first: never more than 64, and never
/// more than 4 MiB of source pixels unless a single larger image is all it holds.
pub struct TextureCache {
    entries: Vec<TextureEntry>,
}

impl TextureCache {
    /// The kept textures, oldest first.
    pub closed spec fn kept(&self) -> Seq<TextureEntry> {
        self.entries@
    }

    /// The bound every cache keeps.
    pub open spec fn bounded(&self) -> bool {
        &&& self.kept().len() <= MAX_TEXTURES
        &&& (held_bytes(self.kept()) <= MAX_TEXTURE_BYTES || self.kept().len() == 1)
    }

    #[verifier::type_invariant]
    spec fn within_bounds(&self) -> bool {
        self.bounded()
    }

    /// An empty cache.
    pub fn new() -> (c: Self)
        ensures
            c.kept().len() == 0,
    {
        TextureCache { entries: Vec::new() }
    }

    /// The number of kept textures.
    pub fn len(&self) -> (n: usize)
        ensures
            n == self.kept().len(),
            self.bounded(),
    {
        proof {
            use_type_invariant(self);
        }
        self.entries.len()
    }

    /// Finds or makes room for the texture of the image `key` of `bytes` source
    /// bytes (see `texture_slot`); on a miss the evicted textures go and the new
    /// one is kept last. Images of at most 4 MiB keep the cache within 4 MiB.
    pub fn place(&mut self, key: (u64, u32, u32), bytes: usize) -> (r: CacheSlot)
        ensures
            r == texture_slot_spec(old(self).kept(), key, bytes as int),
            match r {
                CacheSlot::Hit(i) => final(self).kept() == old(self).kept(),
                CacheSlot::Insert { evict } => final(self).kept()
                    == old(self).kept().skip(evict as int).push((key.0, key.1, key.2, bytes)),
            },
            final(self).bounded(),
            held_bytes(old(self).kept()) <= MAX_TEXTURE_BYTES && bytes <= MAX_TEXTURE_BYTES
                ==> held_bytes(final(self).kept()) <= MAX_TEXTURE_BYTES,
    {
        proof {
            use_type_invariant(&*self);
        }
        let r = texture_slot(&self.entries, key, bytes);
        match r {
            CacheSlot::Hit(_) => {},
            CacheSlot::Insert { evict } => {
                let ghost old_kept = self.entries@;
                let mut kept: Vec<TextureEntry> = Vec::new();
                let mut i: usize = evict;
                while i < self.entries.len()
                    invariant
                        evict <= i <= self.entries@.len(),
                        self.entries@ == old_kept,
                        kept@ == old_kept.subrange(evict as int, i as int),
                    decreases self.entries@.len() - i,
                {
                    kept.push(self.entries[i]);
                    assert(kept@ =~= old_kept.subrange(evict as int, i + 1));
                    i = i + 1;
                }
                assert(kept@ =~= old_kept.skip(evict as int));
                proof {
                    lemma_held_push(kept@, (key.0, key.1, key.2, bytes));
                    lemma_held_nonneg(kept@);
                }
                kept.push((key.0, key.1, key.2, bytes));
                self.entries = kept;
            },
        }
        r
    }
}

} // verus!
