//! The scene before tiling: its objects and its paints.

use vstd::prelude::*;
use hashbrown::hash_map::DefaultHashBuilder;
use hashbrown::HashMap;
use crate::outline::Outline;
use crate::primitives::{ColorU, ObjectShader, RectBits};

verus! {

/// Makes `hashbrown::HashMap` known to Verus, as a type whose inside it does
/// not see.
#[verifier::external_type_specification]
#[verifier::external_body]
#[verifier::reject_recursive_types(K)]
#[verifier::reject_recursive_types(V)]
#[verifier::reject_recursive_types(S)]
pub struct ExHashMap<K, V, S>(HashMap<K, V, S>);

/// Makes the hasher that `hashbrown::HashMap` uses by default known to Verus,
/// as a type whose inside it does not see.
#[verifier::external_type_specification]
#[verifier::external_body]
pub struct ExDefaultHashBuilder(DefaultHashBuilder);

/// The map from the keys of the paints to their numbers.
pub type PaintCache = HashMap<u32, u16, DefaultHashBuilder>;

/// What a map from the keys of paints to their numbers holds. The keys are
/// 32-bit integers: two keys are the same key where they are the same number.
pub uninterp spec fn entries_of(map: HashMap<u32, u16, DefaultHashBuilder>) -> Map<u32, u16>;

/// `hashbrown::HashMap::new`: a map that holds nothing.
#[verifier::external_body]
fn paint_cache_new() -> (cache: PaintCache)
    ensures
        forall|key: u32| !entries_of(cache).contains_key(key),
{
    HashMap::new()
}

/// `hashbrown::HashMap::get`: the value that the map holds for `key`, if it
/// holds one.
#[verifier::external_body]
fn paint_cache_get(map: &PaintCache, key: u32) -> (value: Option<u16>)
    ensures
        value == if entries_of(*map).contains_key(key) {
            Some(entries_of(*map)[key])
        } else {
            None::<u16>
        },
{
    map.get(&key).copied()
}

/// `hashbrown::HashMap::insert`: the map holds `value` for `key`, and for
/// every other key what it held.
#[verifier::external_body]
fn paint_cache_insert(map: &mut PaintCache, key: u32, value: u16)
    ensures
        entries_of(*final(map)) == entries_of(*old(map)).insert(key, value),
{
    map.insert(key, value);
}

/// Whether an object is the interior of a path or its stroke.
#[derive(Clone, Copy, Debug, PartialEq, Eq, Structural)]
pub enum PathObjectKind {
    Fill,
    Stroke,
}

/// How an object is painted: with one colour.
#[derive(Clone, Copy, Debug, PartialEq, Eq, Hash, Structural)]
pub struct Paint {
    pub color: ColorU,
}

/// The number of a paint: its place among the paints of the scene.
#[derive(Clone, Copy, Debug, PartialEq, Eq, Structural)]
pub struct PaintId(pub u16);

/// A paint as an SVG document gives it: a colour, or a link to a paint
/// server.
#[derive(Clone, Copy, Debug, PartialEq, Eq, Structural)]
pub enum SvgPaint {
    Color { red: u8, green: u8, blue: u8 },
    Link,
}

impl Paint {
    /// The paint for an SVG paint: its colour, opaque, and opaque black for
    /// a link.
    pub fn from_svg_paint(svg_paint: &SvgPaint) -> (paint: Paint)
        ensures
            paint.color == match *svg_paint {
                SvgPaint::Color { red, green, blue } => ColorU { r: red, g: green, b: blue, a: 255 },
                SvgPaint::Link => ColorU { r: 0, g: 0, b: 0, a: 255 },
            },
    {
        Paint {
            color: match *svg_paint {
                SvgPaint::Color { red, green, blue } => ColorU::from_svg_color(red, green, blue),
                SvgPaint::Link => ColorU::black(),
            },
        }
    }

    /// The four channels of the colour as one word: the key of the paint.
    pub open spec fn key(self) -> u32 {
        (self.color.r + 0x100 * self.color.g + 0x1_0000 * self.color.b + 0x100_0000
            * self.color.a) as u32
    }

    fn cache_key(&self) -> (key: u32)
        ensures
            key == self.key(),
    {
        self.color.r as u32 + 0x100 * (self.color.g as u32) + 0x1_0000 * (self.color.b as u32)
            + 0x100_0000 * (self.color.a as u32)
    }
}

/// Two paints with the same key are the same paint.
pub proof fn lemma_key_tells_paint(a: Paint, b: Paint)
    requires
        a.key() == b.key(),
    ensures
        a == b,
{
}

/// One path of the scene, with its paint.
#[derive(Debug)]
pub struct PathObject {
    pub outline: Outline,
    pub paint: PaintId,
    pub name: String,
    pub kind: PathObjectKind,
}

impl PathObject {
    /// The object with the given outline, paint, name and kind.
    pub fn new(outline: Outline, paint: PaintId, name: String, kind: PathObjectKind) -> (object:
        PathObject)
        ensures
            object.outline == outline,
            object.paint == paint,
            object.name == name,
            object.kind == kind,
    {
        PathObject { outline, paint, name, kind }
    }
}

/// The paints of a scene, each once, in the order in which they came. The
/// number of a paint is its place among them.
#[derive(Debug)]
pub struct PaintTable {
    paints: Vec<Paint>,
    cache: PaintCache,
}

impl View for PaintTable {
    type V = Seq<Paint>;

    closed spec fn view(&self) -> Seq<Paint> {
        self.paints@
    }
}

impl PaintTable {
    /// The cache holds for every paint its number, and nothing else; so no
    /// paint is there twice.
    #[verifier::type_invariant]
    spec fn inv(self) -> bool {
        &&& self.paints@.len() <= u16::MAX + 1
        &&& forall|i: int|
            0 <= i < self.paints@.len() ==> entries_of(self.cache).contains_key(
                (#[trigger] self.paints@[i]).key(),
            ) && entries_of(self.cache)[self.paints@[i].key()] == i
        &&& forall|key: u32| #[trigger]
            entries_of(self.cache).contains_key(key) ==> entries_of(self.cache)[key]
                < self.paints@.len() && self.paints@[entries_of(self.cache)[key] as int].key()
                == key
    }

    /// A table without paints.
    pub fn new() -> (table: PaintTable)
        ensures
            table@.len() == 0,
    {
        PaintTable { paints: Vec::new(), cache: paint_cache_new() }
    }

    /// The paints, by their numbers. No two of them are the same.
    pub fn paints(&self) -> (paints: &Vec<Paint>)
        ensures
            paints@ == self@,
            paints@.len() <= u16::MAX + 1,
            forall|i: int, j: int| 0 <= i < j < paints@.len() ==> paints@[i] != paints@[j],
    {
        proof {
            use_type_invariant(self);
            assert forall|i: int, j: int| 0 <= i < j < self.paints@.len() implies self.paints@[i]
                != self.paints@[j] by {
                assert(entries_of(self.cache)[self.paints@[i].key()] == i);
                assert(entries_of(self.cache)[self.paints@[j].key()] == j);
            }
        }
        &self.paints
    }

    /// Gives the number of `paint`: the one it has, if the table has the
    /// paint, and else the next free one, with which the paint joins the
    /// table.
    pub fn push_paint(&mut self, paint: &Paint) -> (paint_id: PaintId)
        requires
            old(self)@.len() <= u16::MAX,
        ensures
            paint_id.0 < final(self)@.len(),
            final(self)@[paint_id.0 as int] == *paint,
            old(self)@.contains(*paint) ==> final(self)@ == old(self)@,
            !old(self)@.contains(*paint) ==> final(self)@ == old(self)@.push(*paint)
                && paint_id.0 == old(self)@.len(),
    {
        proof {
            use_type_invariant(&*self);
        }
        let key = paint.cache_key();
        if let Some(paint_id) = paint_cache_get(&self.cache, key) {
            proof {
                assert(entries_of(self.cache).contains_key(key));
                lemma_key_tells_paint(self.paints@[paint_id as int], *paint);
                assert(self.paints@.contains(*paint));
            }
            return PaintId(paint_id);
        }
        proof {
            if self.paints@.contains(*paint) {
                let i = choose|i: int| 0 <= i < self.paints@.len() && self.paints@[i] == *paint;
                assert(entries_of(self.cache).contains_key(self.paints@[i].key()));
            }
        }
        let paint_id = PaintId(self.paints.len() as u16);
        let ghost paints = self.paints@;
        let ghost cached = entries_of(self.cache);
        // The table is taken apart while the paint is put in: between the two
        // insertions the cache and the list do not agree.
        let mut taken = PaintTable::new();
        std::mem::swap(self, &mut taken);
        let PaintTable { paints: mut list, cache: mut cache } = taken;
        paint_cache_insert(&mut cache, key, paint_id.0);
        list.push(*paint);
        proof {
            assert forall|i: int| 0 <= i < list@.len() implies entries_of(cache).contains_key(
                (#[trigger] list@[i]).key(),
            ) && entries_of(cache)[list@[i].key()] == i by {
                if i < paints.len() {
                    assert(list@[i] == paints[i]);
                    assert(cached.contains_key(paints[i].key()));
                }
            }
            assert forall|k: u32| #[trigger] entries_of(cache).contains_key(k) implies entries_of(
                cache,
            )[k] < list@.len() && list@[entries_of(cache)[k] as int].key() == k by {
                if k != key {
                    assert(cached.contains_key(k));
                    assert(list@[cached[k] as int] == paints[cached[k] as int]);
                }
            }
        }
        *self = PaintTable { paints: list, cache };
        paint_id
    }
}

/// A scene: its objects in paint order, and its paints.
#[derive(Debug)]
pub struct Scene {
    pub objects: Vec<PathObject>,
    pub paints: PaintTable,
    pub bounds: RectBits,
    pub view_box: RectBits,
}

impl Scene {
    /// A scene without objects and paints.
    pub fn new() -> (scene: Scene)
        ensures
            scene.objects@.len() == 0,
            scene.paints@.len() == 0,
            scene.bounds == (RectBits { x: 0, y: 0, width: 0, height: 0 }),
            scene.view_box == (RectBits { x: 0, y: 0, width: 0, height: 0 }),
    {
        Scene {
            objects: Vec::new(),
            paints: PaintTable::new(),
            bounds: RectBits { x: 0, y: 0, width: 0, height: 0 },
            view_box: RectBits { x: 0, y: 0, width: 0, height: 0 },
        }
    }

    /// Gives the number of `paint`: the one it has, if the scene has the
    /// paint, and else the next free one, with which the paint joins the
    /// paints of the scene.
    pub fn push_paint(&mut self, paint: &Paint) -> (paint_id: PaintId)
        requires
            old(self).paints@.len() <= u16::MAX,
        ensures
            paint_id.0 < final(self).paints@.len(),
            final(self).paints@[paint_id.0 as int] == *paint,
            old(self).paints@.contains(*paint) ==> final(self).paints@ == old(self).paints@,
            !old(self).paints@.contains(*paint) ==> final(self).paints@ == old(self).paints@.push(
                *paint,
            ) && paint_id.0 == old(self).paints@.len(),
            final(self).objects == old(self).objects,
            final(self).bounds == old(self).bounds,
            final(self).view_box == old(self).view_box,
    {
        self.paints.push_paint(paint)
    }

    /// The shaders of the scene: one for each paint, in the order of the
    /// paints.
    pub fn build_shaders(&self) -> (shaders: Vec<ObjectShader>)
        ensures
            shaders@.len() == self.paints@.len(),
            forall|i: int|
                0 <= i < shaders@.len() ==> (#[trigger] shaders@[i]) == (ObjectShader {
                    fill_color: self.paints@[i].color,
                }),
    {
        let paints = self.paints.paints();
        let mut shaders: Vec<ObjectShader> = Vec::new();
        let mut i: usize = 0;
        while i < paints.len()
            invariant
                paints@ == self.paints@,
                i <= paints@.len(),
                shaders@.len() == i,
                forall|k: int|
                    0 <= k < shaders@.len() ==> (#[trigger] shaders@[k]) == (ObjectShader {
                        fill_color: paints@[k].color,
                    }),
            decreases paints@.len() - i,
        {
            shaders.push(ObjectShader { fill_color: paints[i].color });
            i += 1;
        }
        shaders
    }
}

} // verus!
