use vstd::prelude::*;

use crate::font_system::{font_id_eq, ttf_face_parses, Font};

verus! {

#[verifier::external_type_specification]
#[verifier::external_body]
pub struct ExShapePlan(rustybuzz::ShapePlan);

#[verifier::external_type_specification]
#[verifier::external_body]
pub struct ExDirection(rustybuzz::Direction);

#[verifier::external_type_specification]
#[verifier::external_body]
pub struct ExScript(rustybuzz::Script);

#[verifier::external_type_specification]
#[verifier::external_body]
pub struct ExLanguage(rustybuzz::Language);

#[verifier::external_type_specification]
#[verifier::external_body]
pub struct ExUnicodeBuffer(rustybuzz::UnicodeBuffer);

/// Key for caching shape plans.
pub struct ShapePlanKey {
    pub font_id: fontdb::ID,
    pub direction: rustybuzz::Direction,
    pub script: rustybuzz::Script,
    pub language: Option<rustybuzz::Language>,
}

/// The direction that a buffer holds.
pub uninterp spec fn buffer_direction_of(buffer: rustybuzz::UnicodeBuffer) -> rustybuzz::Direction;

/// The script that a buffer reports.
pub uninterp spec fn buffer_script_of(buffer: rustybuzz::UnicodeBuffer) -> rustybuzz::Script;

/// The language that a buffer holds, if any.
pub uninterp spec fn buffer_language_of(buffer: rustybuzz::UnicodeBuffer) -> Option<rustybuzz::Language>;

/// The direction is not `Direction::Invalid`.
pub uninterp spec fn direction_valid(direction: rustybuzz::Direction) -> bool;

/// The plan that rustybuzz builds, with no features, for face `index` of the
/// data and the direction, script and language.
pub uninterp spec fn shape_plan_of(
    data: Seq<u8>,
    index: u32,
    direction: rustybuzz::Direction,
    script: rustybuzz::Script,
    language: Option<rustybuzz::Language>,
) -> rustybuzz::ShapePlan;

/// Calls `UnicodeBuffer::direction`, which reads the buffer's direction field.
#[verifier::external_body]
fn buffer_direction(buffer: &rustybuzz::UnicodeBuffer) -> (r: rustybuzz::Direction)
    ensures
        r == buffer_direction_of(*buffer),
{
    buffer.direction()
}

/// Calls `UnicodeBuffer::script`, which reads the buffer's script field (or
/// the unknown script where none is set).
#[verifier::external_body]
fn buffer_script(buffer: &rustybuzz::UnicodeBuffer) -> (r: rustybuzz::Script)
    ensures
        r == buffer_script_of(*buffer),
{
    buffer.script()
}

/// Calls `UnicodeBuffer::language`, which clones the buffer's language field.
#[verifier::external_body]
fn buffer_language(buffer: &rustybuzz::UnicodeBuffer) -> (r: Option<rustybuzz::Language>)
    ensures
        r == buffer_language_of(*buffer),
{
    buffer.language()
}

/// Calls `rustybuzz::Direction`'s derived `PartialEq` to compare the
/// direction with `Direction::Invalid`.
#[verifier::external_body]
fn direction_is_valid(direction: &rustybuzz::Direction) -> (r: bool)
    ensures
        r == direction_valid(*direction),
{
    *direction != rustybuzz::Direction::Invalid
}

/// Calls `rustybuzz::Direction`'s derived `PartialEq`, which compares variants.
#[verifier::external_body]
fn direction_eq(a: &rustybuzz::Direction, b: &rustybuzz::Direction) -> (r: bool)
    ensures
        r == (*a == *b),
{
    *a == *b
}

/// Calls `rustybuzz::Script`'s derived `PartialEq`, which compares the script tags.
#[verifier::external_body]
fn script_eq(a: &rustybuzz::Script, b: &rustybuzz::Script) -> (r: bool)
    ensures
        r == (*a == *b),
{
    *a == *b
}

/// Calls `rustybuzz::Language`'s derived `PartialEq`, which compares the language tags.
#[verifier::external_body]
fn language_eq(a: &rustybuzz::Language, b: &rustybuzz::Language) -> (r: bool)
    ensures
        r == (*a == *b),
{
    *a == *b
}

/// Calls `rustybuzz::ShapePlan::new` with the script, the language and no
/// features, on the face that `rustybuzz::Face::from_slice` reads from the
/// data. `ShapePlan::new` panics on `Direction::Invalid`, which `requires`
/// leaves out. The contract claims that a plan comes exactly where the face
/// parses (rustybuzz parses it with ttf-parser's `Face::parse`), and that
/// the plan is a function of the data, the index, the direction, the script
/// and the language, named [`shape_plan_of`].
#[verifier::external_body]
fn new_shape_plan(
    bytes: &[u8],
    index: u32,
    direction: rustybuzz::Direction,
    script: rustybuzz::Script,
    language: &Option<rustybuzz::Language>,
) -> (r: Option<rustybuzz::ShapePlan>)
    requires
        direction_valid(direction),
    ensures
        r is Some <==> ttf_face_parses(bytes@, index),
        r matches Some(plan) ==> plan == shape_plan_of(bytes@, index, direction, script, *language),
{
    match rustybuzz::Face::from_slice(bytes, index) {
        Some(face) => Some(rustybuzz::ShapePlan::new(&face, direction, Some(script), language.as_ref(), &[])),
        None => None,
    }
}

/// The cache key of a font and a buffer: the font's ID and the buffer's
/// direction, script and language.
pub open spec fn buffer_key(font: Font, buffer: rustybuzz::UnicodeBuffer) -> ShapePlanKey {
    ShapePlanKey {
        font_id: font.id,
        direction: buffer_direction_of(buffer),
        script: buffer_script_of(buffer),
        language: buffer_language_of(buffer),
    }
}

/// The plan is one that rustybuzz builds for face `index` of some data and
/// the key's direction, script and language.
pub open spec fn planned_for(plan: rustybuzz::ShapePlan, index: u32, key: ShapePlanKey) -> bool {
    exists|data: Seq<u8>| plan == shape_plan_of(data, index, key.direction, key.script, key.language)
}

/// The two keys are the same.
pub open spec fn same_key(a: ShapePlanKey, b: ShapePlanKey) -> bool {
    a.font_id == b.font_id && a.direction == b.direction && a.script == b.script && a.language
        == b.language
}

/// The plan cached under a key the same as `key`, looked up from the most
/// recent entry back.
pub open spec fn cached_plan(entries: Seq<(ShapePlanKey, rustybuzz::ShapePlan)>, key: ShapePlanKey) -> Option<rustybuzz::ShapePlan>
    decreases entries.len(),
{
    if entries.len() == 0 {
        None
    } else if same_key(entries.last().0, key) {
        Some(entries.last().1)
    } else {
        cached_plan(entries.drop_last(), key)
    }
}

/// A plan that has been cached is found again: after an entry for `key` is
/// added, looking up a key the same as `key` gives that entry's plan.
pub proof fn lemma_cached_plan_found(
    entries: Seq<(ShapePlanKey, rustybuzz::ShapePlan)>,
    key: ShapePlanKey,
    plan: rustybuzz::ShapePlan,
    same: ShapePlanKey,
)
    requires
        same_key(key, same),
    ensures
        cached_plan(entries.push((key, plan)), same) == Some(plan),
{
}

/// A plan found in the cache for a key was stored under exactly that key: the
/// same font ID, direction, script and language.
pub proof fn lemma_cached_plan_stored_under_key(
    entries: Seq<(ShapePlanKey, rustybuzz::ShapePlan)>,
    key: ShapePlanKey,
    plan: rustybuzz::ShapePlan,
)
    requires
        cached_plan(entries, key) == Some(plan),
    ensures
        exists|i: int| 0 <= i < entries.len() && #[trigger] entries[i] == (key, plan),
    decreases entries.len(),
{
    let last = entries.len() - 1;
    if entries.last().0 == key && entries.last().1 == plan {
        assert(entries[last] == (key, plan));
    } else if same_key(entries.last().0, key) {
        assert(entries.last().0 == key);
    } else {
        lemma_cached_plan_stored_under_key(entries.drop_last(), key, plan);
        let i = choose|i: int| 0 <= i < entries.drop_last().len() && #[trigger] entries.drop_last()[i] == (key, plan);
        assert(entries[i] == entries.drop_last()[i]);
    }
}

/// A helper structure for caching rustybuzz shape plans.
pub struct ShapePlanCache(Vec<(ShapePlanKey, rustybuzz::ShapePlan)>);

/// Whether two keys are the same.
fn key_eq(a: &ShapePlanKey, b: &ShapePlanKey) -> (r: bool)
    ensures
        r == same_key(*a, *b),
{
    let same_language = match (&a.language, &b.language) {
        (Some(x), Some(y)) => language_eq(x, y),
        (None, None) => true,
        _ => false,
    };
    font_id_eq(&a.font_id, &b.font_id) && direction_eq(&a.direction, &b.direction) && script_eq(
        &a.script,
        &b.script,
    ) && same_language
}

/// Where no plan is cached for a key the same as `key`, no entry has such a key.
proof fn lemma_no_cached_plan(entries: Seq<(ShapePlanKey, rustybuzz::ShapePlan)>, key: ShapePlanKey)
    requires
        cached_plan(entries, key) is None,
    ensures
        forall|i: int| 0 <= i < entries.len() ==> !same_key((#[trigger] entries[i]).0, key),
    decreases entries.len(),
{
    if entries.len() > 0 {
        lemma_no_cached_plan(entries.drop_last(), key);
        assert forall|i: int| 0 <= i < entries.len() implies !same_key((#[trigger] entries[i]).0, key) by {
            if i < entries.len() - 1 {
                assert(entries[i] == entries.drop_last()[i]);
            }
        }
    }
}

/// A plan found in the cache is stored under a key the same as the one asked for.
proof fn lemma_cached_plan_key(entries: Seq<(ShapePlanKey, rustybuzz::ShapePlan)>, key: ShapePlanKey)
    requires
        cached_plan(entries, key) is Some,
    ensures
        exists|i: int| 0 <= i < entries.len() && same_key((#[trigger] entries[i]).0, key),
    decreases entries.len(),
{
    if !same_key(entries.last().0, key) {
        lemma_cached_plan_key(entries.drop_last(), key);
        let i = choose|i: int| 0 <= i < entries.drop_last().len() && same_key((#[trigger] entries.drop_last()[i]).0, key);
        assert(entries[i] == entries.drop_last()[i]);
    } else {
        assert(entries[entries.len() - 1] == entries.last());
    }
}

impl ShapePlanKey {
    /// Whether the key's direction is valid, so that a plan can be built for it.
    pub fn has_valid_direction(&self) -> (r: bool)
        ensures
            r == direction_valid(self.direction),
    {
        direction_is_valid(&self.direction)
    }
}

impl ShapePlanCache {
    /// No two entries have the same key, and every key has a valid direction.
    #[verifier::type_invariant]
    spec fn entries_wf(&self) -> bool {
        &&& forall|i: int, j: int|
            0 <= i < j < self.0@.len() ==> !same_key((#[trigger] self.0@[i]).0, (#[trigger] self.0@[j]).0)
        &&& forall|i: int| 0 <= i < self.0@.len() ==> direction_valid((#[trigger] self.0@[i]).0.direction)
    }

    /// The cached keys and plans, oldest first.
    pub closed spec fn entries(&self) -> Seq<(ShapePlanKey, rustybuzz::ShapePlan)> {
        self.0@
    }

    /// The cache holds no plan.
    pub open spec fn is_empty_cache(&self) -> bool {
        self.entries().len() == 0
    }

    /// The number of cached plans.
    pub fn len(&self) -> (n: usize)
        ensures
            n == self.entries().len(),
    {
        self.0.len()
    }

    /// The position of the most recent entry for a key the same as `key`.
    fn find(&self, key: &ShapePlanKey) -> (r: Option<usize>)
        ensures
            match r {
                Some(i) => i < self.entries().len() && cached_plan(self.entries(), *key) == Some(
                    self.entries()[i as int].1,
                ),
                None => cached_plan(self.entries(), *key) is None,
            },
    {
        let mut n = self.0.len();
        proof {
            assert(self.0@.take(n as int) == self.0@);
        }
        while n > 0
            invariant
                0 <= n <= self.0@.len(),
                cached_plan(self.0@, *key) == cached_plan(self.0@.take(n as int), *key),
            decreases n,
        {
            proof {
                assert(self.0@.take(n as int).drop_last() == self.0@.take(n - 1));
                assert(self.0@.take(n as int).last() == self.0@[n - 1]);
            }
            if key_eq(&self.0[n - 1].0, key) {
                return Some(n - 1);
            }
            n = n - 1;
        }
        None
    }

    /// The plan for `key`: the cached one where there is one, else a new plan
    /// for the font's face and the key's direction, script and language,
    /// which is cached. `None` where the font's data no longer parses as a
    /// face, and then the cache is left as it was.
    pub fn plan_for_key(&mut self, font: &Font, key: ShapePlanKey) -> (r: Option<&rustybuzz::ShapePlan>)
        requires
            direction_valid(key.direction),
        ensures
            match cached_plan(old(self).entries(), key) {
                Some(plan) => r == Some(&plan) && final(self).entries() == old(self).entries(),
                None => match r {
                    Some(plan) => final(self).entries() == old(self).entries().push((key, *plan))
                        && planned_for(*plan, font.face_index, key),
                    None => final(self).entries() == old(self).entries(),
                },
            },
            r matches Some(plan) ==> exists|i: int|
                0 <= i < final(self).entries().len() && #[trigger] final(self).entries()[i] == (key, *plan),
    {
        if let Some(i) = self.find(&key) {
            proof {
                lemma_cached_plan_stored_under_key(self.entries(), key, self.entries()[i as int].1);
            }
            return Some(&self.0[i].1);
        }
        let plan = match new_shape_plan(font.data(), font.face_index, key.direction, key.script, &key.language) {
            Some(plan) => plan,
            None => return None,
        };
        proof {
            use_type_invariant(&*self);
            lemma_no_cached_plan(self.0@, key);
        }
        let mut entries = Vec::new();
        std::mem::swap(&mut entries, &mut self.0);
        entries.push((key, plan));
        self.0 = entries;
        let last = self.0.len() - 1;
        proof {
            assert(self.entries()[last as int] == self.0@[last as int]);
        }
        Some(&self.0[last].1)
    }

    /// The plan for the font and the buffer's direction, script and language:
    /// the cached one where there is one, else a new plan, which is cached.
    /// `None` where the buffer's direction is invalid (rustybuzz plans no
    /// shaping for it), or where the font's data no longer parses as a face;
    /// then the cache is left as it was.
    pub fn get_from_font_and_buffer_info(
        &mut self,
        font: &Font,
        buffer: &rustybuzz::UnicodeBuffer,
    ) -> (r: Option<&rustybuzz::ShapePlan>)
        ensures
            match cached_plan(old(self).entries(), buffer_key(*font, *buffer)) {
                Some(plan) => r == Some(&plan) && final(self).entries() == old(self).entries(),
                None => if !direction_valid(buffer_direction_of(*buffer)) {
                    r is None && final(self).entries() == old(self).entries()
                } else {
                    match r {
                        Some(plan) => final(self).entries() == old(self).entries().push(
                            (buffer_key(*font, *buffer), *plan),
                        ) && planned_for(*plan, font.face_index, buffer_key(*font, *buffer)),
                        None => final(self).entries() == old(self).entries(),
                    }
                },
            },
            r matches Some(plan) ==> exists|i: int|
                0 <= i < final(self).entries().len() && #[trigger] final(self).entries()[i] == (
                    buffer_key(*font, *buffer),
                    *plan,
                ),
    {
        let key = ShapePlanKey {
            font_id: font.id,
            direction: buffer_direction(buffer),
            script: buffer_script(buffer),
            language: buffer_language(buffer),
        };
        proof {
            use_type_invariant(&*self);
            if cached_plan(self.entries(), key) is Some {
                lemma_cached_plan_key(self.entries(), key);
            }
        }
        if !key.has_valid_direction() {
            return None;
        }
        self.plan_for_key(font, key)
    }
}

impl Default for ShapePlanCache {
    fn default() -> (c: Self)
        ensures
            c.is_empty_cache(),
    {
        ShapePlanCache(Vec::new())
    }
}

} // verus!
