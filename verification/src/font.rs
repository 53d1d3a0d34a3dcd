//! Glyph caches: one per font, keyed by character and resolution.
//!
//! A cache never computes a glyph itself. A renderer asks for a glyph with
//! [`GlyphCache::glyph`]; where the answer is `None`, it rasterizes the
//! character with the font of the cache, turns the bitmap into a path with
//! [`crate::path::vectorize`], fills the path, and offers the mesh to
//! [`GlyphCache::store`]. A glyph that is stored is never replaced, so each
//! key is computed at most once.
//!
//! Fonts are not parsed here either: the renderer parses the bytes of a font
//! and hands the outcome, a font or the parser's message, to
//! [`Fonts::load`].

use std::collections::HashMap;
use vstd::prelude::*;
use fontdue::{Font, Metrics};
use crate::error::{CanFail, KuleError};
use crate::geometry::GlyphGeometry;

verus! {

broadcast use vstd::std_specs::hash::group_hash_axioms;

/// A parsed font of `fontdue`. Nothing is known of its content here.
#[verifier::external_type_specification]
#[verifier::external_body]
pub struct ExFont(Font);

/// The metrics that `fontdue` gives for a rasterized glyph: its bounding box
/// and advance. They are carried through the cache unread.
#[verifier::external_type_specification]
#[verifier::external_body]
pub struct ExMetrics(Metrics);

/// The resolution at which glyphs are vectorized unless another is asked for.
pub const DEFAULT_RESOLUTION: u32 = 100;

/// A cached glyph: its metrics and its mesh.
pub type Glyph<V> = (Metrics, GlyphGeometry<V>);

/// The cache key of a glyph.
pub type GlyphKey = (char, u32);

/// The position of a glyph key in the table of a cache: the character in the
/// upper half of the number, the resolution in the lower. The table is keyed
/// by this number because the model of a hash map is known to hold for
/// integer keys, and not for pairs.
pub open spec fn spec_glyph_slot(key: GlyphKey) -> u64 {
    ((key.0 as u32) as int * 0x1_0000_0000 + key.1 as int) as u64
}

/// Distinct keys have distinct positions.
pub proof fn lemma_glyph_slot_injective(a: GlyphKey, b: GlyphKey)
    requires
        spec_glyph_slot(a) == spec_glyph_slot(b),
    ensures
        a == b,
{
    assert((a.0 as u32) as int * 0x1_0000_0000 + a.1 as int <= u64::MAX);
    assert((b.0 as u32) as int * 0x1_0000_0000 + b.1 as int <= u64::MAX);
    assert(a.0 as u32 == b.0 as u32);
    vstd::utf8::char_u32_cast(a.0, a.0 as u32);
    vstd::utf8::char_u32_cast(b.0, b.0 as u32);
}

/// The position of a glyph key in the table of a cache.
fn glyph_slot(ch: char, resolution: u32) -> (slot: u64)
    ensures
        slot == spec_glyph_slot((ch, resolution)),
{
    let code: u32 = ch as u32;
    let high: u64 = code as u64;
    high * 0x1_0000_0000 + resolution as u64
}

/// The cache after an entry for `key` is offered: a key that is present keeps
/// its entry.
pub open spec fn spec_store<V>(
    cache: Map<GlyphKey, Glyph<V>>,
    key: GlyphKey,
    glyph: Glyph<V>,
) -> Map<GlyphKey, Glyph<V>> {
    if cache.contains_key(key) {
        cache
    } else {
        cache.insert(key, glyph)
    }
}

/// A cache of glyph geometry for a single font. Glyphs are vectorized: a
/// glyph is rasterized at some resolution, and the bitmap is turned into a
/// mesh, which is kept here under the character and that resolution.
pub struct GlyphCache<V> {
    font: Font,
    geometry: HashMap<u64, Glyph<V>>,
}

impl<V> View for GlyphCache<V> {
    type V = Map<GlyphKey, Glyph<V>>;

    closed spec fn view(&self) -> Self::V {
        Map::new(
            |k: GlyphKey| self.geometry@.contains_key(spec_glyph_slot(k)),
            |k: GlyphKey| self.geometry@[spec_glyph_slot(k)],
        )
    }
}

impl<V> From<Font> for GlyphCache<V> {
    /// An empty cache for a font.
    fn from(font: Font) -> (cache: Self)
        ensures
            cache.wf(),
            cache@ == Map::<GlyphKey, Glyph<V>>::empty(),
            cache.spec_font() == font,
    {
        GlyphCache::new(font)
    }
}

impl<V> vstd::std_specs::convert::FromSpecImpl<Font> for GlyphCache<V> {
    /// The table of a cache has no value that a specification could name, so
    /// nothing is claimed through this function; `from` states what it gives.
    open spec fn obeys_from_spec() -> bool {
        false
    }

    open spec fn from_spec(font: Font) -> Self {
        arbitrary()
    }
}

impl<V> GlyphCache<V> {
    /// The font of the cache.
    pub closed spec fn spec_font(&self) -> Font {
        self.font
    }

    /// Every cached mesh is well formed.
    pub open spec fn wf(&self) -> bool {
        forall|k: GlyphKey| #[trigger] self@.contains_key(k) ==> self@[k].1.wf()
    }

    /// An empty cache for a font.
    pub fn new(font: Font) -> (cache: Self)
        ensures
            cache.wf(),
            cache@ == Map::<GlyphKey, Glyph<V>>::empty(),
            cache.spec_font() == font,
    {
        let cache = GlyphCache { font, geometry: HashMap::new() };
        assert(cache@ =~= Map::<GlyphKey, Glyph<V>>::empty());
        cache
    }

    /// Get a reference to the font itself.
    pub fn font(&self) -> (font: &Font)
        ensures
            *font == self.spec_font(),
    {
        &self.font
    }

    /// Whether the glyph of a character at some resolution is cached.
    pub fn contains(&self, ch: char, resolution: u32) -> (b: bool)
        ensures
            b == self@.contains_key((ch, resolution)),
    {
        self.geometry.contains_key(&glyph_slot(ch, resolution))
    }

    /// Get a reference to the metrics and geometry of a character glyph at
    /// some resolution; `None` until that glyph has been stored.
    pub fn glyph(&self, ch: char, resolution: u32) -> (found: Option<&Glyph<V>>)
        ensures
            found is Some <==> self@.contains_key((ch, resolution)),
            found is Some ==> *found.unwrap() == self@[(ch, resolution)],
    {
        self.geometry.get(&glyph_slot(ch, resolution))
    }

    /// Get the metrics of a character at some resolution; `None` until that
    /// glyph has been stored.
    pub fn metrics(&self, ch: char, resolution: u32) -> (found: Option<Metrics>)
        ensures
            found is Some <==> self@.contains_key((ch, resolution)),
            found is Some ==> found.unwrap() == self@[(ch, resolution)].0,
    {
        match self.glyph(ch, resolution) {
            Some(glyph) => Some(glyph.0),
            None => None,
        }
    }

    /// Offers the cache the glyph of a character at some resolution. The
    /// glyph is kept unless the cache has one under that key already; the
    /// result says whether it was kept.
    pub fn store(&mut self, ch: char, resolution: u32, metrics: Metrics, geometry: GlyphGeometry<V>) -> (stored: bool)
        requires
            old(self).wf(),
            geometry.wf(),
        ensures
            final(self).wf(),
            final(self).spec_font() == old(self).spec_font(),
            stored == !old(self)@.contains_key((ch, resolution)),
            final(self)@ == spec_store(old(self)@, (ch, resolution), (metrics, geometry)),
    {
        let slot = glyph_slot(ch, resolution);
        if self.geometry.contains_key(&slot) {
            false
        } else {
            self.geometry.insert(slot, (metrics, geometry));
            proof {
                assert forall|k: GlyphKey| k != (ch, resolution) implies spec_glyph_slot(k)
                    != slot by {
                    if spec_glyph_slot(k) == slot {
                        lemma_glyph_slot_injective(k, (ch, resolution));
                    }
                }
                assert(self@ =~= spec_store(old(self)@, (ch, resolution), (metrics, geometry)));
            }
            true
        }
    }
}

/// Size information for rendering glyphs. The resolution is the pixel size at
/// which a glyph is rasterized and then vectorized; the scale is the size at
/// which it is shown, in whatever number type the renderer uses.
#[derive(Debug, Clone, Copy, PartialEq)]
pub struct GlyphSize<S> {
    /// The pixel resolution to use when rasterizing then vectorizing the glyph
    pub resolution: u32,
    /// The actual text size to use
    pub scale: S,
}

impl<S> GlyphSize<S> {
    /// Create a new `GlyphSize` with the given scale and the default
    /// resolution.
    pub fn new(scale: S) -> (size: Self)
        ensures
            size.resolution == DEFAULT_RESOLUTION,
            size.scale == scale,
    {
        GlyphSize { resolution: DEFAULT_RESOLUTION, scale }
    }

    /// Set the glyph resolution
    pub fn resolution(self, resolution: u32) -> (size: Self)
        ensures
            size.resolution == resolution,
            size.scale == self.scale,
    {
        GlyphSize { resolution, scale: self.scale }
    }

    /// The key under which the glyph of a character is cached for this size.
    pub open spec fn spec_key(&self, ch: char) -> GlyphKey {
        (ch, self.resolution)
    }

    /// The key under which the glyph of a character is cached for this size.
    pub fn key(&self, ch: char) -> (key: GlyphKey)
        ensures
            key == self.spec_key(ch),
    {
        (ch, self.resolution)
    }
}

/// Information for rendering glyphs
#[derive(Debug, Clone, Copy)]
pub struct GlyphSpec<S> {
    /// The font id
    pub font_id: u64,
    /// The size
    pub size: GlyphSize<S>,
}

impl<S> GlyphSpec<S> {
    /// Create a new `GlyphSpec`
    pub fn new(font_id: u64, size: GlyphSize<S>) -> (spec: Self)
        ensures
            spec.font_id == font_id,
            spec.size == size,
    {
        GlyphSpec { font_id, size }
    }
}

/// A cache of glyphs for each loaded font
pub struct Fonts<V> {
    caches: HashMap<u64, GlyphCache<V>>,
}

impl<V> View for Fonts<V> {
    type V = Map<u64, GlyphCache<V>>;

    closed spec fn view(&self) -> Self::V {
        self.caches@
    }
}

/// Whether `after` is `before` with the cache of one font replaced or added.
pub open spec fn only_font_changed<V>(
    before: Map<u64, GlyphCache<V>>,
    after: Map<u64, GlyphCache<V>>,
    id: u64,
) -> bool {
    &&& after.dom() == before.dom().insert(id)
    &&& forall|other: u64| other != id && #[trigger] before.contains_key(other) ==> after[other] == before[other]
}

impl<V> Default for Fonts<V> {
    /// No font is loaded.
    fn default() -> (fonts: Self)
        ensures
            fonts.wf(),
            fonts@ == Map::<u64, GlyphCache<V>>::empty(),
    {
        Fonts::new()
    }
}

impl<V> Fonts<V> {
    /// Every glyph cache is well formed.
    pub open spec fn wf(&self) -> bool {
        forall|id: u64| #[trigger] self@.contains_key(id) ==> self@[id].wf()
    }

    /// No font is loaded.
    pub fn new() -> (fonts: Self)
        ensures
            fonts.wf(),
            fonts@ == Map::<u64, GlyphCache<V>>::empty(),
    {
        Fonts { caches: HashMap::new() }
    }

    /// Loads a font from the outcome of parsing its bytes: a parsed font gets
    /// a fresh, empty glyph cache under `id`, in place of any font that was
    /// there; a parse error is handed on and leaves the fonts as they were.
    pub fn load(&mut self, id: u64, parsed: Result<Font, &'static str>) -> (r: CanFail)
        requires
            old(self).wf(),
        ensures
            final(self).wf(),
            match parsed {
                Ok(font) => {
                    &&& r is Ok
                    &&& only_font_changed(old(self)@, final(self)@, id)
                    &&& final(self)@[id]@ == Map::<GlyphKey, Glyph<V>>::empty()
                    &&& final(self)@[id].spec_font() == font
                },
                Err(message) => {
                    &&& r matches Err(KuleError::Static(m))
                    &&& m == message
                    &&& final(self)@ == old(self)@
                },
            },
    {
        match parsed {
            Ok(font) => {
                self.caches.insert(id, GlyphCache::new(font));
                assert(final(self)@.dom() =~= old(self)@.dom().insert(id));
                Ok(())
            },
            Err(message) => Err(KuleError::Static(message)),
        }
    }

    /// Get a glyph cache with the given id
    pub fn get(&self, id: u64) -> (cache: Option<&GlyphCache<V>>)
        ensures
            cache is Some <==> self@.contains_key(id),
            cache is Some ==> *cache.unwrap() == self@[id],
    {
        self.caches.get(&id)
    }

    /// The glyph cache of a font that is loaded.
    pub fn index(&self, id: u64) -> (cache: &GlyphCache<V>)
        requires
            self@.contains_key(id),
        ensures
            *cache == self@[id],
    {
        self.caches.get(&id).unwrap()
    }

    /// Looks a glyph up for drawing: the cached glyph of `ch` in the font and
    /// at the resolution that `spec` names. The scale of `spec` plays no part.
    /// `None` when the font is not loaded or the glyph is not cached.
    pub fn glyph<S>(&self, spec: &GlyphSpec<S>, ch: char) -> (found: Option<&Glyph<V>>)
        ensures
            found is Some <==> self@.contains_key(spec.font_id) && self@[spec.font_id]@.contains_key(
                spec.size.spec_key(ch),
            ),
            found is Some ==> *found.unwrap() == self@[spec.font_id]@[spec.size.spec_key(ch)],
    {
        match self.caches.get(&spec.font_id) {
            Some(cache) => cache.glyph(ch, spec.size.resolution),
            None => None,
        }
    }

    /// Offers the cache of font `id` the glyph of a character at some
    /// resolution. The glyph is kept if the font is loaded and has no glyph
    /// under that key; the result says whether it was kept.
    pub fn store(
        &mut self,
        id: u64,
        ch: char,
        resolution: u32,
        metrics: Metrics,
        geometry: GlyphGeometry<V>,
    ) -> (stored: bool)
        requires
            old(self).wf(),
            geometry.wf(),
        ensures
            final(self).wf(),
            stored == (old(self)@.contains_key(id) && !old(self)@[id]@.contains_key(
                (ch, resolution),
            )),
            !old(self)@.contains_key(id) ==> final(self)@ == old(self)@,
            old(self)@.contains_key(id) ==> {
                &&& only_font_changed(old(self)@, final(self)@, id)
                &&& final(self)@[id].spec_font() == old(self)@[id].spec_font()
                &&& final(self)@[id]@ == spec_store(
                    old(self)@[id]@,
                    (ch, resolution),
                    (metrics, geometry),
                )
            },
    {
        match self.caches.remove(&id) {
            Some(cache) => {
                let mut cache = cache;
                assert(old(self)@.contains_key(id) && cache == old(self)@[id]);
                let stored = cache.store(ch, resolution, metrics, geometry);
                self.caches.insert(id, cache);
                assert(final(self)@.dom() =~= old(self)@.dom().insert(id));
                stored
            },
            None => {
                assert(final(self)@ =~= old(self)@);
                false
            },
        }
    }
}

/// Once a glyph is cached under a key, it stays: the key is present after
/// the first offer and holds the glyph of that offer, and a second offer under
/// the same key changes nothing, whatever glyph it brings.
pub proof fn lemma_cached_glyph_is_kept<V>(
    cache: Map<GlyphKey, Glyph<V>>,
    key: GlyphKey,
    first: Glyph<V>,
    second: Glyph<V>,
)
    ensures
        spec_store(cache, key, first).contains_key(key),
        !cache.contains_key(key) ==> spec_store(cache, key, first)[key] == first,
        spec_store(spec_store(cache, key, first), key, second) == spec_store(cache, key, first),
{
}

/// Glyphs under different keys, such as one character at two resolutions,
/// are separate entries: an offer under one key neither adds, removes nor
/// alters the entry of another.
pub proof fn lemma_glyph_keys_are_independent<V>(
    cache: Map<GlyphKey, Glyph<V>>,
    key: GlyphKey,
    other: GlyphKey,
    glyph: Glyph<V>,
)
    requires
        key != other,
    ensures
        spec_store(cache, other, glyph).contains_key(key) == cache.contains_key(key),
        spec_store(cache, other, glyph)[key] == cache[key],
{
}

/// Two sizes of one resolution share their cached glyphs, whatever their
/// scales are: the key of a character is the same under both.
pub proof fn lemma_scale_leaves_key<S>(a: GlyphSize<S>, b: GlyphSize<S>, ch: char)
    requires
        a.resolution == b.resolution,
    ensures
        a.spec_key(ch) == b.spec_key(ch),
{
}

} // verus!
