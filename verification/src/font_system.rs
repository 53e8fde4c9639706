use vstd::prelude::*;

use std::collections::HashMap;
use std::sync::Arc;

use crate::attributes::{Attributes, Family, Stretch, Style, Weight};
use crate::strings::occurs_in;
use crate::shape_plan_cache::ShapePlanCache;

verus! {

#[verifier::external_type_specification]
#[verifier::external_body]
pub struct ExDatabase(fontdb::Database);

#[verifier::external_type_specification]
#[verifier::external_body]
pub struct ExFontId(fontdb::ID);

#[verifier::external_type_specification]
#[verifier::external_body]
pub struct ExFontdbFaceInfo(fontdb::FaceInfo);

#[verifier::external_type_specification]
#[verifier::external_body]
pub struct ExSwashCacheKey(swash::CacheKey);

#[verifier::external_type_specification]
#[verifier::external_body]
pub struct ExTtfWidth(rustybuzz::ttf_parser::Width);

#[verifier::external_type_specification]
#[verifier::external_body]
pub struct ExSwashFontRef<'a>(swash::FontRef<'a>);

#[verifier::external_type_specification]
#[verifier::external_body]
pub struct ExShapingFace<'a>(rustybuzz::Face<'a>);

/// The font data that a face's source holds, shared with the font database.
///
/// The data is reached through a trait object that Verus does not support,
/// so the struct is opaque to verification.
#[verifier::external_body]
pub struct FontData(Arc<dyn AsRef<[u8]> + Send + Sync>);

impl FontData {
    /// Calls `AsRef<[u8]>::as_ref` on the shared data. Nothing is claimed
    /// of the bytes: a memory-mapped file can change on disk.
    #[verifier::external_body]
    pub(crate) fn bytes(&self) -> &[u8] {
        (*self.0).as_ref()
    }
}

/// A font face of the database, as the library reads it.
pub struct FaceRecord {
    /// The face's ID in the database.
    pub id: fontdb::ID,
    /// The number that fontdb displays for the ID: the slot version in the
    /// high 32 bits and the slot index in the low 32 bits.
    pub id_bits: u64,
    /// The PostScript name.
    pub post_script_name: String,
    pub style: Style,
    pub weight: Weight,
    pub stretch: Stretch,
    /// The face index in its source.
    pub index: u32,
    /// The kind of the face's source.
    pub source_kind: SourceKind,
}

/// The kind of source that a face's data comes from.
#[derive(PartialEq, Eq, Structural, Clone, Copy, Debug)]
pub enum SourceKind {
    /// Data in memory.
    Binary,
    /// A file that has not been read.
    File,
    /// A file mapped into memory and shared.
    SharedFile,
}

/// Where a face's data comes from.
pub enum FaceSource {
    Binary(FontData),
    File,
    SharedFile(FontData),
}

/// A generic font family whose name the database resolves.
#[derive(PartialEq, Eq, Structural, Clone, Copy, Debug)]
pub enum GenericFamily {
    Serif,
    SansSerif,
    Cursive,
    Fantasy,
    Monospace,
}

/// The faces that a font database holds, in the order it walks them.
pub uninterp spec fn database_faces(db: fontdb::Database) -> Seq<FaceRecord>;

/// The family name that a database gives a generic family.
pub uninterp spec fn generic_family_name(db: fontdb::Database, family: GenericFamily) -> Seq<char>;

/// No two faces of the sequence share an ID.
pub open spec fn distinct_ids(faces: Seq<FaceRecord>) -> bool {
    forall|i: int, j: int|
        0 <= i < faces.len() && 0 <= j < faces.len() && i != j ==> (#[trigger] faces[i]).id_bits
            != (#[trigger] faces[j]).id_bits && faces[i].id != faces[j].id
}

/// Some face of the sequence has the ID.
pub open spec fn has_face(faces: Seq<FaceRecord>, id: fontdb::ID) -> bool {
    exists|i: int| 0 <= i < faces.len() && (#[trigger] faces[i]).id == id
}

/// Tells the nine variants of a face's width (fontdb's `Stretch`) apart.
#[verifier::external_body]
fn stretch_from_width(width: rustybuzz::ttf_parser::Width) -> Stretch {
    match width {
        rustybuzz::ttf_parser::Width::UltraCondensed => Stretch::UltraCondensed,
        rustybuzz::ttf_parser::Width::ExtraCondensed => Stretch::ExtraCondensed,
        rustybuzz::ttf_parser::Width::Condensed => Stretch::Condensed,
        rustybuzz::ttf_parser::Width::SemiCondensed => Stretch::SemiCondensed,
        rustybuzz::ttf_parser::Width::Normal => Stretch::Normal,
        rustybuzz::ttf_parser::Width::SemiExpanded => Stretch::SemiExpanded,
        rustybuzz::ttf_parser::Width::Expanded => Stretch::Expanded,
        rustybuzz::ttf_parser::Width::ExtraExpanded => Stretch::ExtraExpanded,
        rustybuzz::ttf_parser::Width::UltraExpanded => Stretch::UltraExpanded,
    }
}

/// Copies the fields of a `fontdb::FaceInfo` that the library reads, telling
/// the style's and the source's variants apart; the ID's number is read
/// through fontdb's `Display` of the ID.
#[verifier::external_body]
fn face_record_from_fontdb(face: &fontdb::FaceInfo) -> FaceRecord {
    FaceRecord {
        id: face.id,
        id_bits: face.id.to_string().parse().unwrap(),
        post_script_name: face.post_script_name.clone(),
        style: match face.style { fontdb::Style::Normal => Style::Normal, fontdb::Style::Italic => Style::Italic, fontdb::Style::Oblique => Style::Oblique },
        weight: Weight(face.weight.0),
        stretch: stretch_from_width(face.stretch),
        index: face.index,
        source_kind: match face.source { fontdb::Source::Binary(_) => SourceKind::Binary, fontdb::Source::File(_) => SourceKind::File, fontdb::Source::SharedFile(..) => SourceKind::SharedFile },
    }
}

/// Calls `Database::faces`; the contract claims the result lists the
/// database's faces and, as fontdb's slot map shows, that no two of them
/// share an ID.
#[verifier::external_body]
pub(crate) fn database_face_list(db: &fontdb::Database) -> (r: Vec<FaceRecord>)
    ensures
        r@ == database_faces(*db),
        distinct_ids(r@),
{
    db.faces().map(face_record_from_fontdb).collect()
}

/// Calls `Database::face`; the contract claims it returns the database's
/// face with the ID, or `None` where the database has none.
#[verifier::external_body]
pub(crate) fn database_face(db: &fontdb::Database, id: fontdb::ID) -> (r: Option<FaceRecord>)
    ensures
        match r {
            Some(face) => face.id == id && database_faces(*db).contains(face),
            None => !has_face(database_faces(*db), id),
        },
{
    db.face(id).map(face_record_from_fontdb)
}

/// The kind of a source.
pub open spec fn kind_of(source: FaceSource) -> SourceKind {
    match source {
        FaceSource::Binary(_) => SourceKind::Binary,
        FaceSource::File => SourceKind::File,
        FaceSource::SharedFile(_) => SourceKind::SharedFile,
    }
}

/// Calls `Database::face_source` and tells the source's variants apart; the
/// contract claims a source is returned exactly where the database has a
/// face with the ID, and that it is of the kind that the face lists.
#[verifier::external_body]
pub(crate) fn database_face_source(db: &fontdb::Database, id: fontdb::ID) -> (r: Option<FaceSource>)
    ensures
        r is Some <==> has_face(database_faces(*db), id),
        r matches Some(source) ==> forall|i: int|
            0 <= i < database_faces(*db).len() && (#[trigger] database_faces(*db)[i]).id == id
                ==> database_faces(*db)[i].source_kind == kind_of(source),
{
    db.face_source(id).map(|(source, _)| match source {
        fontdb::Source::Binary(data) => FaceSource::Binary(FontData(data)),
        fontdb::Source::File(_) => FaceSource::File,
        fontdb::Source::SharedFile(_, data) => FaceSource::SharedFile(FontData(data)),
    })
}

/// Calls `fontdb::ID`'s derived `PartialEq`, which compares the slot keys.
#[verifier::external_body]
pub(crate) fn font_id_eq(a: &fontdb::ID, b: &fontdb::ID) -> (r: bool)
    ensures
        r == (*a == *b),
{
    *a == *b
}

/// The number that fontdb displays for an ID.
pub uninterp spec fn id_number(id: fontdb::ID) -> u64;

/// Reads the number that fontdb's `Display` of the ID shows: slotmap's
/// `KeyData::as_ffi`, the slot version in the high 32 bits and the slot
/// index in the low 32 bits. The contract names it [`id_number`] and claims,
/// as both halves of the slot key are in it, that no other ID has it.
#[verifier::external_body]
fn font_id_number(id: &fontdb::ID) -> (r: u64)
    ensures
        r == id_number(*id),
        forall|other: fontdb::ID| #[trigger] id_number(other) == r ==> other == *id,
{
    id.to_string().parse().unwrap()
}

/// Calls `Database::set_serif_family`, which only replaces that name.
#[verifier::external_body]
fn set_serif_family(db: &mut fontdb::Database, name: &str)
    ensures
        database_faces(*final(db)) == database_faces(*old(db)),
        forall|g: GenericFamily|
            #[trigger] generic_family_name(*final(db), g) == if g == GenericFamily::Serif {
                name@
            } else {
                generic_family_name(*old(db), g)
            },
{
    db.set_serif_family(name)
}

/// Calls `Database::set_sans_serif_family`, which only replaces that name.
#[verifier::external_body]
fn set_sans_serif_family(db: &mut fontdb::Database, name: &str)
    ensures
        database_faces(*final(db)) == database_faces(*old(db)),
        forall|g: GenericFamily|
            #[trigger] generic_family_name(*final(db), g) == if g == GenericFamily::SansSerif {
                name@
            } else {
                generic_family_name(*old(db), g)
            },
{
    db.set_sans_serif_family(name)
}

/// Calls `Database::set_monospace_family`, which only replaces that name.
#[verifier::external_body]
fn set_monospace_family(db: &mut fontdb::Database, name: &str)
    ensures
        database_faces(*final(db)) == database_faces(*old(db)),
        forall|g: GenericFamily|
            #[trigger] generic_family_name(*final(db), g) == if g == GenericFamily::Monospace {
                name@
            } else {
                generic_family_name(*old(db), g)
            },
{
    db.set_monospace_family(name)
}


/// Calls std's `Arc::clone`, which hands out another pointer to the same value.
#[verifier::external_body]
pub(crate) fn arc_clone<T>(a: &Arc<T>) -> (r: Arc<T>)
    ensures
        r == *a,
{
    a.clone()
}

/// Whether ttf-parser parses face `index` of the data.
pub uninterp spec fn ttf_face_parses(data: Seq<u8>, index: u32) -> bool;

/// Where `swash::FontRef::from_index` finds face `index` of the data, the
/// offset of its table directory.
pub uninterp spec fn swash_font_offset_of(data: Seq<u8>, index: u32) -> Option<u32>;

/// Calls `swash::FontRef::from_index` and keeps the offset and cache key.
/// The contract claims that whether a font is found, and its offset, are a
/// function of the data and the index, named [`swash_font_offset_of`];
/// nothing is claimed of the key, which comes from a global counter.
#[verifier::external_body]
fn swash_font_key(bytes: &[u8], index: u32) -> (r: Option<(u32, swash::CacheKey)>)
    ensures
        match swash_font_offset_of(bytes@, index) {
            Some(offset) => r matches Some(key) && key.0 == offset,
            None => r is None,
        },
{
    swash::FontRef::from_index(bytes, index as usize).map(|font| (font.offset, font.key))
}

/// Calls `rustybuzz::Face::from_slice`, which succeeds exactly where
/// ttf-parser's `Face::parse` does; the contract claims that.
#[verifier::external_body]
pub(crate) fn shaping_face<'a>(bytes: &'a [u8], index: u32) -> (r: Option<rustybuzz::Face<'a>>)
    ensures
        r is Some <==> ttf_face_parses(bytes@, index),
{
    rustybuzz::Face::from_slice(bytes, index)
}

/// A subtable of a font's character map: whether it maps Unicode, and each
/// code point it lists with whether it maps the code point to a glyph.
pub struct CmapSubtable {
    pub is_unicode: bool,
    pub codepoints: Vec<(u32, bool)>,
}

/// The code points of the list that are mapped to a glyph, in order.
pub open spec fn mapped_codepoints(cps: Seq<(u32, bool)>) -> Seq<u32>
    decreases cps.len(),
{
    if cps.len() == 0 {
        Seq::empty()
    } else if cps.last().1 {
        mapped_codepoints(cps.drop_last()).push(cps.last().0)
    } else {
        mapped_codepoints(cps.drop_last())
    }
}

/// A character map subtable as plain values: whether it maps Unicode, and
/// each code point it lists with whether it maps the code point to a glyph.
pub type CmapSubtableView = (bool, Seq<(u32, bool)>);

/// What a subtable holds.
pub open spec fn subtable_view(subtable: CmapSubtable) -> CmapSubtableView {
    (subtable.is_unicode, subtable.codepoints@)
}

/// The subtables of a list, as plain values.
pub open spec fn subtables_view(subtables: Seq<CmapSubtable>) -> Seq<CmapSubtableView> {
    subtables.map_values(|subtable: CmapSubtable| subtable_view(subtable))
}

/// The code points that the Unicode subtables map to a glyph, subtable by subtable.
pub open spec fn unicode_codepoints_of(subtables: Seq<CmapSubtableView>) -> Seq<u32>
    decreases subtables.len(),
{
    if subtables.len() == 0 {
        Seq::empty()
    } else if subtables.last().0 {
        unicode_codepoints_of(subtables.drop_last()) + mapped_codepoints(subtables.last().1)
    } else {
        unicode_codepoints_of(subtables.drop_last())
    }
}

/// A code point is among those of a list exactly where the list pairs it
/// with a glyph.
proof fn lemma_mapped_codepoints_membership(cps: Seq<(u32, bool)>, c: u32)
    ensures
        mapped_codepoints(cps).contains(c) <==> exists|j: int| 0 <= j < cps.len() && #[trigger] cps[j] == (c, true),
    decreases cps.len(),
{
    if cps.len() > 0 {
        let init = cps.drop_last();
        lemma_mapped_codepoints_membership(init, c);
        let m0 = mapped_codepoints(init);
        if exists|j: int| 0 <= j < init.len() && #[trigger] init[j] == (c, true) {
            let j = choose|j: int| 0 <= j < init.len() && #[trigger] init[j] == (c, true);
            assert(cps[j] == init[j]);
            let k = choose|k: int| 0 <= k < m0.len() && m0[k] == c;
            if cps.last().1 {
                assert(m0.push(cps.last().0)[k] == c);
            }
        }
        if exists|j: int| 0 <= j < cps.len() && #[trigger] cps[j] == (c, true) {
            let j = choose|j: int| 0 <= j < cps.len() && #[trigger] cps[j] == (c, true);
            if j < init.len() {
                assert(init[j] == cps[j]);
            } else {
                assert(m0.push(c)[m0.len() as int] == c);
            }
        }
        if mapped_codepoints(cps).contains(c) {
            let k = choose|k: int| 0 <= k < mapped_codepoints(cps).len() && mapped_codepoints(cps)[k] == c;
            if cps.last().1 && k == m0.len() {
                assert(cps[cps.len() - 1] == (c, true));
            } else {
                assert(m0[k] == c);
                let j = choose|j: int| 0 <= j < init.len() && #[trigger] init[j] == (c, true);
                assert(cps[j] == init[j]);
            }
        }
    }
}

/// A code point is among the Unicode code points of a font's subtables
/// exactly where some Unicode subtable pairs it with a glyph, whatever its
/// value.
pub proof fn lemma_unicode_codepoints_membership(subtables: Seq<CmapSubtableView>, c: u32)
    ensures
        unicode_codepoints_of(subtables).contains(c) <==> exists|i: int, j: int|
            0 <= i < subtables.len() && (#[trigger] subtables[i]).0 && 0 <= j < subtables[i].1.len()
                && #[trigger] subtables[i].1[j] == (c, true),
    decreases subtables.len(),
{
    if subtables.len() > 0 {
        let init = subtables.drop_last();
        let last = subtables.last();
        let u0 = unicode_codepoints_of(init);
        lemma_unicode_codepoints_membership(init, c);
        lemma_mapped_codepoints_membership(last.1, c);
        let m = mapped_codepoints(last.1);
        let found = exists|i: int, j: int|
            0 <= i < subtables.len() && (#[trigger] subtables[i]).0 && 0 <= j < subtables[i].1.len()
                && #[trigger] subtables[i].1[j] == (c, true);
        if unicode_codepoints_of(subtables).contains(c) {
            let k = choose|k: int| 0 <= k < unicode_codepoints_of(subtables).len() && unicode_codepoints_of(subtables)[k] == c;
            if last.0 && k >= u0.len() {
                assert((u0 + m)[k] == m[k - u0.len()]);
                assert(m.contains(c));
                let j = choose|j: int| 0 <= j < last.1.len() && #[trigger] last.1[j] == (c, true);
                assert(subtables[subtables.len() - 1] == last);
                assert(subtables[subtables.len() - 1].1[j] == (c, true));
            } else {
                if last.0 {
                    assert((u0 + m)[k] == u0[k]);
                }
                assert(u0.contains(c));
                let (i, j) = choose|i: int, j: int|
                    0 <= i < init.len() && (#[trigger] init[i]).0 && 0 <= j < init[i].1.len()
                        && #[trigger] init[i].1[j] == (c, true);
                assert(subtables[i] == init[i]);
                assert(subtables[i].1[j] == (c, true));
            }
        }
        if found {
            let (i, j) = choose|i: int, j: int|
                0 <= i < subtables.len() && (#[trigger] subtables[i]).0 && 0 <= j < subtables[i].1.len()
                    && #[trigger] subtables[i].1[j] == (c, true);
            if i < init.len() {
                assert(init[i] == subtables[i]);
                assert(init[i].1[j] == (c, true));
                assert(u0.contains(c));
                let k = choose|k: int| 0 <= k < u0.len() && u0[k] == c;
                if last.0 {
                    assert((u0 + m)[k] == c);
                }
            } else {
                assert(subtables[i] == last);
                assert(last.1[j] == (c, true));
                assert(m.contains(c));
                let k = choose|k: int| 0 <= k < m.len() && m[k] == c;
                assert((u0 + m)[u0.len() + k] == c);
            }
        }
    }
}

/// The subtables of the character map of face `index` of the data, in the
/// order the table lists them, where the face parses and has a character map.
pub uninterp spec fn cmap_of(data: Seq<u8>, index: u32) -> Option<Seq<CmapSubtableView>>;

/// Collect, subtable by subtable, the code points of the Unicode subtables
/// that are mapped to a glyph.
pub fn collect_unicode_codepoints(subtables: &Vec<CmapSubtable>) -> (r: Vec<u32>)
    ensures
        r@ == unicode_codepoints_of(subtables_view(subtables@)),
        forall|c: u32|
            #![trigger r@.contains(c)]
            r@.contains(c) <==> exists|i: int, j: int|
                0 <= i < subtables@.len() && (#[trigger] subtables@[i]).is_unicode && 0 <= j
                    < subtables@[i].codepoints@.len() && #[trigger] subtables@[i].codepoints@[j] == (c, true),
{
    let mut unicode_codepoints: Vec<u32> = Vec::new();
    let mut i: usize = 0;
    while i < subtables.len()
        invariant
            0 <= i <= subtables.len(),
            unicode_codepoints@ == unicode_codepoints_of(subtables_view(subtables@.take(i as int))),
        decreases subtables.len() - i,
    {
        let subtable = &subtables[i];
        proof {
            assert(subtables@.take(i + 1).drop_last() == subtables@.take(i as int));
            assert(subtables_view(subtables@.take(i + 1)).drop_last() == subtables_view(subtables@.take(i as int)));
            assert(subtables_view(subtables@.take(i + 1)).last() == subtable_view(subtables@[i as int]));
        }
        if subtable.is_unicode {
            let ghost before = unicode_codepoints@;
            let mut j: usize = 0;
            while j < subtable.codepoints.len()
                invariant
                    0 <= j <= subtable.codepoints.len(),
                    unicode_codepoints@ == before + mapped_codepoints(subtable.codepoints@.take(j as int)),
                decreases subtable.codepoints.len() - j,
            {
                let (code_point, has_glyph) = subtable.codepoints[j];
                proof {
                    assert(subtable.codepoints@.take(j + 1).drop_last() == subtable.codepoints@.take(j as int));
                }
                if has_glyph {
                    unicode_codepoints.push(code_point);
                }
                j = j + 1;
            }
            proof {
                assert(subtable.codepoints@.take(j as int) == subtable.codepoints@);
            }
        }
        i = i + 1;
    }
    proof {
        assert(subtables@.take(i as int) == subtables@);
    }
    proof {
        let v = subtables_view(subtables@);
        assert forall|c: u32|
            #![trigger unicode_codepoints@.contains(c)]
            unicode_codepoints@.contains(c) <==> exists|i: int, j: int|
                0 <= i < subtables@.len() && (#[trigger] subtables@[i]).is_unicode && 0 <= j
                    < subtables@[i].codepoints@.len() && #[trigger] subtables@[i].codepoints@[j] == (c, true) by {
            lemma_unicode_codepoints_membership(v, c);
            if exists|i: int, j: int|
                0 <= i < subtables@.len() && (#[trigger] subtables@[i]).is_unicode && 0 <= j
                    < subtables@[i].codepoints@.len() && #[trigger] subtables@[i].codepoints@[j] == (c, true) {
                let (i, j) = choose|i: int, j: int|
                    0 <= i < subtables@.len() && (#[trigger] subtables@[i]).is_unicode && 0 <= j
                        < subtables@[i].codepoints@.len() && #[trigger] subtables@[i].codepoints@[j] == (c, true);
                assert(v[i] == subtable_view(subtables@[i]));
                assert(v[i].1[j] == (c, true));
            }
            if exists|i: int, j: int|
                0 <= i < v.len() && (#[trigger] v[i]).0 && 0 <= j < v[i].1.len() && #[trigger] v[i].1[j] == (c, true) {
                let (i, j) = choose|i: int, j: int|
                    0 <= i < v.len() && (#[trigger] v[i]).0 && 0 <= j < v[i].1.len() && #[trigger] v[i].1[j] == (c, true);
                assert(v[i] == subtable_view(subtables@[i]));
                assert(subtables@[i].codepoints@[j] == (c, true));
            }
        }
    }
    unicode_codepoints
}

/// Parses face `index` of the data with `ttf_parser::Face::parse`, takes its
/// `cmap` table, and copies out each subtable's `is_unicode` and the code
/// points that `codepoints` walks, each with whether `glyph_index` finds a
/// glyph for it. The contract claims that the outcome is a function of the
/// data and the index, named [`cmap_of`], and that it is `None` where the
/// face does not parse.
#[verifier::external_body]
fn read_cmap(bytes: &[u8], index: u32) -> (r: Option<Vec<CmapSubtable>>)
    ensures
        !ttf_face_parses(bytes@, index) ==> r is None,
        match cmap_of(bytes@, index) {
            Some(subtables) => r matches Some(read) && subtables_view(read@) == subtables,
            None => r is None,
        },
{
    let face = rustybuzz::ttf_parser::Face::parse(bytes, index).ok()?;
    let cmap = face.tables().cmap?;
    Some(cmap.subtables.into_iter().map(|subtable| {
        let mut codepoints = Vec::new();
        subtable.codepoints(|c| codepoints.push((c, subtable.glyph_index(c).is_some())));
        CmapSubtable { is_unicode: subtable.is_unicode(), codepoints }
    }).collect())
}

/// A font loaded from the database.
pub struct Font {
    /// The table directory offset and swash cache key of the face.
    pub swash_cache_key: (u32, swash::CacheKey),
    /// The face data, shared with the database.
    pub data: FontData,
    /// The index of the face in its data, from which its shaping face is parsed.
    pub face_index: u32,
    pub id: fontdb::ID,
    /// The Unicode code points that the face maps to a glyph.
    pub unicode_codepoints: Vec<u32>,
    /// The bytes the face was read from when the font was loaded.
    pub loaded_data: Ghost<Seq<u8>>,
}

/// Face `index` of the data parses, has a character map, and swash finds it.
pub open spec fn face_data_loads(data: Seq<u8>, index: u32) -> bool {
    &&& ttf_face_parses(data, index)
    &&& cmap_of(data, index) is Some
    &&& swash_font_offset_of(data, index) is Some
}

impl Font {
    /// The font holds what its loaded bytes give: the face parses, swash finds
    /// the face at the stored offset, and the code points are those that the
    /// Unicode subtables of its character map map to a glyph.
    pub open spec fn read_from_data(&self) -> bool {
        &&& ttf_face_parses(self.loaded_data@, self.face_index)
        &&& swash_font_offset_of(self.loaded_data@, self.face_index) == Some(self.swash_cache_key.0)
        &&& cmap_of(self.loaded_data@, self.face_index) matches Some(subtables)
            && self.unicode_codepoints@ == unicode_codepoints_of(subtables)
    }

    /// Load the font of face `font_id`: `None` where the database has no such
    /// face, where the face comes from a file that was not shared, or where
    /// its data does not parse.
    pub fn new(database: &fontdb::Database, font_id: fontdb::ID) -> (r: Option<Self>)
        ensures
            r is None && (exists|i: int|
                0 <= i < database_faces(*database).len() && (#[trigger] database_faces(*database)[i]).id
                    == font_id && database_faces(*database)[i].source_kind != SourceKind::File) ==> exists|
                i: int,
                data: Seq<u8>,
            |
                #![trigger face_data_loads(data, database_faces(*database)[i].index)]
                0 <= i < database_faces(*database).len() && database_faces(*database)[i].id == font_id
                    && !face_data_loads(data, database_faces(*database)[i].index),
            !has_face(database_faces(*database), font_id) ==> r is None,
            (exists|i: int|
                0 <= i < database_faces(*database).len() && (#[trigger] database_faces(*database)[i]).id
                    == font_id && database_faces(*database)[i].source_kind == SourceKind::File) ==> r is None,
            r matches Some(font) ==> {
                &&& font.id == font_id
                &&& font.read_from_data()
                &&& exists|i: int|
                    0 <= i < database_faces(*database).len() && (#[trigger] database_faces(*database)[i]).id
                        == font_id && database_faces(*database)[i].index == font.face_index
            },
    {
        let face_info = match database_face(database, font_id) {
            Some(face_info) => face_info,
            None => return None,
        };
        let data = match database_face_source(database, font_id) {
            Some(FaceSource::Binary(data)) => data,
            Some(FaceSource::SharedFile(data)) => data,
            Some(FaceSource::File) => return None,
            None => return None,
        };
        let bytes = data.bytes();
        let ghost faces = database_faces(*database);
        let ghost at = choose|i: int| 0 <= i < faces.len() && faces[i] == face_info;
        proof {
            assert(faces[at].id == font_id);
        }
        let subtables = match read_cmap(bytes, face_info.index) {
            Some(subtables) => subtables,
            None => {
                proof {
                    assert(!face_data_loads(bytes@, faces[at].index));
                }
                return None;
            },
        };
        let unicode_codepoints = collect_unicode_codepoints(&subtables);
        let swash_cache_key = match swash_font_key(bytes, face_info.index) {
            Some(key) => key,
            None => {
                proof {
                    assert(!face_data_loads(bytes@, faces[at].index));
                }
                return None;
            },
        };
        if shaping_face(bytes, face_info.index).is_none() {
            proof {
                assert(!face_data_loads(bytes@, faces[at].index));
            }
            return None;
        }
        let loaded_data = Ghost(bytes@);
        Some(Font { swash_cache_key, data, face_index: face_info.index, id: face_info.id, unicode_codepoints, loaded_data })
    }

    /// The font data.
    pub fn data(&self) -> &[u8] {
        self.data.bytes()
    }

    /// Builds a `swash::FontRef` from the data and the stored offset and key.
    #[verifier::external_body]
    pub fn as_font_reference(&self) -> swash::FontRef<'_> {
        swash::FontRef { data: (*self.data.0).as_ref(), offset: self.swash_cache_key.0, key: self.swash_cache_key.1 }
    }
}


/// The face is an emoji face, or has the given style and stretch.
pub open spec fn face_matches(style: Style, stretch: Stretch, face: FaceRecord) -> bool {
    occurs_in("Emoji"@, face.post_script_name@) || (face.style == style && face.stretch == stretch)
}

/// A face whose PostScript name contains "Emoji" matches any style and
/// stretch; any other face matches exactly its own style and stretch.
pub proof fn lemma_face_matching(style: Style, stretch: Stretch, face: FaceRecord)
    ensures
        occurs_in("Emoji"@, face.post_script_name@) ==> face_matches(style, stretch, face),
        !occurs_in("Emoji"@, face.post_script_name@) ==> (face_matches(style, stretch, face) <==> (
        face.style == style && face.stretch == stretch)),
{
}

/// Font-specific part of [`Attributes`] to be used for matching.
#[derive(Clone, Debug, Hash)]
pub struct FontMatchAttributes {
    pub family: Family,
    pub stretch: Stretch,
    pub style: Style,
    pub weight: Weight,
}

/// The font-specific part of a set of attributes.
pub open spec fn match_attributes_of(attributes: Attributes) -> FontMatchAttributes {
    FontMatchAttributes {
        family: attributes.family,
        stretch: attributes.stretch,
        style: attributes.style,
        weight: attributes.weight,
    }
}

/// The two sets of match attributes are the same, family names taken by their characters.
pub open spec fn same_match_attributes(a: FontMatchAttributes, b: FontMatchAttributes) -> bool {
    a.family@ == b.family@ && a.stretch == b.stretch && a.style == b.style && a.weight == b.weight
}

impl PartialEq for FontMatchAttributes {
    fn eq(&self, other: &Self) -> (r: bool) {
        self.family.eq(&other.family) && self.stretch == other.stretch && self.style == other.style
            && self.weight == other.weight
    }
}

impl vstd::std_specs::convert::FromSpecImpl<Attributes> for FontMatchAttributes {
    open spec fn obeys_from_spec() -> bool {
        true
    }

    open spec fn from_spec(attributes: Attributes) -> Self {
        match_attributes_of(attributes)
    }
}

impl From<Attributes> for FontMatchAttributes {
    fn from(attributes: Attributes) -> (r: Self) {
        let Attributes { family, stretch, style, weight, .. } = attributes;
        Self { family, stretch, style, weight }
    }
}

impl vstd::std_specs::cmp::PartialEqSpecImpl for FontMatchAttributes {
    open spec fn obeys_eq_spec() -> bool {
        true
    }

    open spec fn eq_spec(&self, other: &Self) -> bool {
        same_match_attributes(*self, *other)
    }
}

impl Eq for FontMatchAttributes {
}

/// A candidate face for a set of attributes, ordered by how far its weight
/// is from the wanted one, then by its weight, then by its ID.
#[derive(Debug, Clone, Copy, PartialEq, Eq, PartialOrd, Ord)]
pub struct FontMatchKey {
    pub font_weight_difference: u16,
    pub font_weight: u16,
    pub id: fontdb::ID,
}

/// The order of a candidate: weight difference, weight, then the ID's slot
/// index and slot version, which is the order of `fontdb::ID`.
pub type MatchRank = (u16, u16, u32, u32);

/// A candidate with its order.
pub type RankedMatch = (MatchRank, FontMatchKey);

/// `a` comes strictly before `b`.
pub open spec fn rank_lt(a: MatchRank, b: MatchRank) -> bool {
    ||| a.0 < b.0
    ||| a.0 == b.0 && a.1 < b.1
    ||| a.0 == b.0 && a.1 == b.1 && a.2 < b.2
    ||| a.0 == b.0 && a.1 == b.1 && a.2 == b.2 && a.3 < b.3
}

/// The distance between two weights.
pub open spec fn weight_difference(a: u16, b: u16) -> u16 {
    if a >= b {
        (a - b) as u16
    } else {
        (b - a) as u16
    }
}

/// The slot index of an ID's number: its low 32 bits.
pub open spec fn slot_index(bits: u64) -> u32 {
    (bits % 0x1_0000_0000) as u32
}

/// The slot version of an ID's number: its high 32 bits.
pub open spec fn slot_version(bits: u64) -> u32 {
    (bits / 0x1_0000_0000) as u32
}

/// The candidate that a face is for the wanted weight.
pub open spec fn ranked_match(weight: Weight, face: FaceRecord) -> RankedMatch {
    let difference = weight_difference(weight.0, face.weight.0);
    (
        (difference, face.weight.0, slot_index(face.id_bits), slot_version(face.id_bits)),
        FontMatchKey { font_weight_difference: difference, font_weight: face.weight.0, id: face.id },
    )
}

/// The candidates of the matching faces, in the order of the faces.
pub open spec fn match_candidates(faces: Seq<FaceRecord>, style: Style, stretch: Stretch, weight: Weight) -> Seq<RankedMatch>
    decreases faces.len(),
{
    if faces.len() == 0 {
        Seq::empty()
    } else if face_matches(style, stretch, faces.last()) {
        match_candidates(faces.drop_last(), style, stretch, weight).push(ranked_match(weight, faces.last()))
    } else {
        match_candidates(faces.drop_last(), style, stretch, weight)
    }
}

/// Each candidate comes strictly before the next.
pub open spec fn ranks_increasing(s: Seq<RankedMatch>) -> bool {
    forall|i: int, j: int| 0 <= i < j < s.len() ==> rank_lt((#[trigger] s[i]).0, (#[trigger] s[j]).0)
}

/// No two candidates share their order.
pub open spec fn distinct_ranks(s: Seq<RankedMatch>) -> bool {
    forall|i: int, j: int| 0 <= i < s.len() && 0 <= j < s.len() && i != j ==> (#[trigger] s[i]).0 != (#[trigger] s[j]).0
}

/// The candidates of the matching faces, sorted.
pub open spec fn sorted_matches(faces: Seq<FaceRecord>, style: Style, stretch: Stretch, weight: Weight) -> Seq<RankedMatch> {
    choose|s: Seq<RankedMatch>|
        ranks_increasing(s) && s.to_multiset() == match_candidates(faces, style, stretch, weight).to_multiset()
}

/// The match keys of the faces for the wanted style, stretch and weight,
/// in order.
pub open spec fn match_keys(faces: Seq<FaceRecord>, style: Style, stretch: Stretch, weight: Weight) -> Seq<FontMatchKey> {
    sorted_matches(faces, style, stretch, weight).map_values(|m: RankedMatch| m.1)
}


/// An ID's number is its slot index and slot version together.
proof fn lemma_id_bits_split(a: u64, b: u64)
    requires
        slot_index(a) == slot_index(b),
        slot_version(a) == slot_version(b),
    ensures
        a == b,
{
    assert(a == (a / 0x1_0000_0000) * 0x1_0000_0000 + a % 0x1_0000_0000) by (nonlinear_arith);
    assert(b == (b / 0x1_0000_0000) * 0x1_0000_0000 + b % 0x1_0000_0000) by (nonlinear_arith);
    assert(a % 0x1_0000_0000 == b % 0x1_0000_0000);
    assert(a / 0x1_0000_0000 == b / 0x1_0000_0000);
}

/// Each candidate is the candidate of one of the faces.
proof fn lemma_candidate_source(faces: Seq<FaceRecord>, style: Style, stretch: Stretch, weight: Weight, k: int)
    requires
        0 <= k < match_candidates(faces, style, stretch, weight).len(),
    ensures
        exists|i: int|
            0 <= i < faces.len() && match_candidates(faces, style, stretch, weight)[k] == ranked_match(
                weight,
                #[trigger] faces[i],
            ) && face_matches(style, stretch, faces[i]),
    decreases faces.len(),
{
    let init = faces.drop_last();
    let c0 = match_candidates(init, style, stretch, weight);
    if k < c0.len() {
        lemma_candidate_source(init, style, stretch, weight, k);
        let i = choose|i: int| 0 <= i < init.len() && c0[k] == ranked_match(weight, #[trigger] init[i])
            && face_matches(style, stretch, init[i]);
        assert(faces[i] == init[i]);
    } else {
        assert(faces[faces.len() - 1] == faces.last());
    }
}

/// A face that matches has its candidate among the candidates.
proof fn lemma_matching_face_candidate(faces: Seq<FaceRecord>, style: Style, stretch: Stretch, weight: Weight, i: int)
    requires
        0 <= i < faces.len(),
        face_matches(style, stretch, faces[i]),
    ensures
        match_candidates(faces, style, stretch, weight).contains(ranked_match(weight, faces[i])),
    decreases faces.len(),
{
    let init = faces.drop_last();
    let c0 = match_candidates(init, style, stretch, weight);
    let c = match_candidates(faces, style, stretch, weight);
    if i < faces.len() - 1 {
        assert(init[i] == faces[i]);
        lemma_matching_face_candidate(init, style, stretch, weight, i);
        let k = choose|k: int| 0 <= k < c0.len() && c0[k] == ranked_match(weight, faces[i]);
        if face_matches(style, stretch, faces.last()) {
            assert(c[k] == c0[k]);
        }
    } else {
        assert(faces.last() == faces[i]);
        assert(c[c0.len() as int] == ranked_match(weight, faces[i]));
    }
}

/// The key that a face gets for the wanted weight: its ID, its weight, and
/// how far its weight is from the wanted one.
pub open spec fn key_of_face(weight: Weight, face: FaceRecord) -> FontMatchKey {
    FontMatchKey {
        font_weight_difference: if weight.0 >= face.weight.0 {
            (weight.0 - face.weight.0) as u16
        } else {
            (face.weight.0 - weight.0) as u16
        },
        font_weight: face.weight.0,
        id: face.id,
    }
}

/// The key is that of a face that matches the wanted style and stretch (a
/// face whose PostScript name contains "Emoji" matches any).
pub open spec fn key_of_matching_face(
    faces: Seq<FaceRecord>,
    style: Style,
    stretch: Stretch,
    weight: Weight,
    key: FontMatchKey,
) -> bool {
    exists|i: int|
        0 <= i < faces.len() && (occurs_in("Emoji"@, faces[i].post_script_name@) || (faces[i].style == style
            && faces[i].stretch == stretch)) && key == key_of_face(weight, #[trigger] faces[i])
}

/// `keys` holds the key of each face that matches the wanted style and
/// stretch (a face whose PostScript name contains "Emoji" matches any),
/// whatever its weight, once, and nothing else.
pub open spec fn keys_of_matching_faces(
    faces: Seq<FaceRecord>,
    style: Style,
    stretch: Stretch,
    weight: Weight,
    keys: Seq<FontMatchKey>,
) -> bool {
    &&& forall|i: int|
        0 <= i < faces.len() && (occurs_in("Emoji"@, faces[i].post_script_name@) || (faces[i].style == style
            && faces[i].stretch == stretch)) ==> keys.contains(key_of_face(weight, #[trigger] faces[i]))
    &&& forall|k: int| 0 <= k < keys.len() ==> key_of_matching_face(faces, style, stretch, weight, #[trigger] keys[k])
    &&& forall|k: int, l: int| 0 <= k < l < keys.len() ==> (#[trigger] keys[k]).id != (#[trigger] keys[l]).id
}

/// Sorting the candidates of the faces gives the key of every face that
/// matches the wanted style and stretch, whatever its weight, once each, and
/// no other key.
pub proof fn lemma_sorted_keys_of_matching_faces(
    s: Seq<RankedMatch>,
    faces: Seq<FaceRecord>,
    style: Style,
    stretch: Stretch,
    weight: Weight,
)
    requires
        distinct_ids(faces),
        ranks_increasing(s),
        s.to_multiset() == match_candidates(faces, style, stretch, weight).to_multiset(),
    ensures
        keys_of_matching_faces(faces, style, stretch, weight, s.map_values(|m: RankedMatch| m.1)),
{
    let c = match_candidates(faces, style, stretch, weight);
    let keys = s.map_values(|m: RankedMatch| m.1);
    assert forall|i: int|
        0 <= i < faces.len() && (occurs_in("Emoji"@, faces[i].post_script_name@) || (faces[i].style == style
            && faces[i].stretch == stretch)) implies keys.contains(key_of_face(weight, #[trigger] faces[i])) by {
        lemma_matching_face_candidate(faces, style, stretch, weight, i);
        let m = ranked_match(weight, faces[i]);
        vstd::seq_lib::to_multiset_contains(c, m);
        vstd::seq_lib::to_multiset_contains(s, m);
        let k = choose|k: int| 0 <= k < s.len() && s[k] == m;
        assert(keys[k] == key_of_face(weight, faces[i]));
    }
    assert forall|k: int| 0 <= k < keys.len() implies key_of_matching_face(faces, style, stretch, weight, #[trigger] keys[k]) by {
        assert(s.contains(s[k]));
        vstd::seq_lib::to_multiset_contains(s, s[k]);
        vstd::seq_lib::to_multiset_contains(c, s[k]);
        let t = choose|t: int| 0 <= t < c.len() && c[t] == s[k];
        lemma_candidate_source(faces, style, stretch, weight, t);
        let i = choose|i: int| 0 <= i < faces.len() && c[t] == ranked_match(weight, #[trigger] faces[i])
            && face_matches(style, stretch, faces[i]);
        assert(keys[k] == key_of_face(weight, faces[i]));
    }
    assert forall|k: int, l: int| 0 <= k < l < keys.len() implies (#[trigger] keys[k]).id != (#[trigger] keys[l]).id by {
        assert(s.contains(s[k]));
        assert(s.contains(s[l]));
        vstd::seq_lib::to_multiset_contains(s, s[k]);
        vstd::seq_lib::to_multiset_contains(c, s[k]);
        vstd::seq_lib::to_multiset_contains(s, s[l]);
        vstd::seq_lib::to_multiset_contains(c, s[l]);
        let t = choose|t: int| 0 <= t < c.len() && c[t] == s[k];
        let u = choose|u: int| 0 <= u < c.len() && c[u] == s[l];
        lemma_candidate_source(faces, style, stretch, weight, t);
        lemma_candidate_source(faces, style, stretch, weight, u);
        let i = choose|i: int| 0 <= i < faces.len() && c[t] == ranked_match(weight, #[trigger] faces[i])
            && face_matches(style, stretch, faces[i]);
        let j = choose|j: int| 0 <= j < faces.len() && c[u] == ranked_match(weight, #[trigger] faces[j])
            && face_matches(style, stretch, faces[j]);
        assert(rank_lt(s[k].0, s[l].0));
        if keys[k].id == keys[l].id {
            assert(faces[i].id == faces[j].id);
            assert(i == j);
        }
    }
}

/// Faces with distinct IDs give candidates with distinct orders.
proof fn lemma_candidates_distinct(faces: Seq<FaceRecord>, style: Style, stretch: Stretch, weight: Weight)
    requires
        distinct_ids(faces),
    ensures
        distinct_ranks(match_candidates(faces, style, stretch, weight)),
    decreases faces.len(),
{
    if faces.len() > 0 {
        let init = faces.drop_last();
        assert(distinct_ids(init)) by {
            assert forall|i: int, j: int|
                0 <= i < init.len() && 0 <= j < init.len() && i != j implies (#[trigger] init[i]).id_bits
                != (#[trigger] init[j]).id_bits && init[i].id != init[j].id by {
                assert(init[i] == faces[i] && init[j] == faces[j]);
            }
        }
        lemma_candidates_distinct(init, style, stretch, weight);
        let c0 = match_candidates(init, style, stretch, weight);
        let c = match_candidates(faces, style, stretch, weight);
        if face_matches(style, stretch, faces.last()) {
            let last = ranked_match(weight, faces.last());
            assert forall|k: int| 0 <= k < c0.len() implies (#[trigger] c0[k]).0 != last.0 by {
                lemma_candidate_source(init, style, stretch, weight, k);
                let i = choose|i: int| 0 <= i < init.len() && c0[k] == ranked_match(weight, #[trigger] init[i]);
                assert(init[i] == faces[i]);
                assert(faces[i].id_bits != faces[faces.len() - 1].id_bits);
                if c0[k].0 == last.0 {
                    lemma_id_bits_split(faces[i].id_bits, faces.last().id_bits);
                }
            }
            assert forall|i: int, j: int|
                0 <= i < c.len() && 0 <= j < c.len() && i != j implies (#[trigger] c[i]).0 != (#[trigger] c[j]).0 by {
                if i < c0.len() && j < c0.len() {
                    assert(c[i] == c0[i] && c[j] == c0[j]);
                } else if i < c0.len() {
                    assert(c[i] == c0[i]);
                } else {
                    assert(c[j] == c0[j]);
                }
            }
        }
    }
}

/// Two increasing candidate lists with the same candidates are the same list.
proof fn lemma_sorted_unique(a: Seq<RankedMatch>, b: Seq<RankedMatch>)
    requires
        ranks_increasing(a),
        ranks_increasing(b),
        a.to_multiset() == b.to_multiset(),
    ensures
        a == b,
    decreases a.len(),
{
    broadcast use vstd::seq_lib::group_to_multiset_ensures;

    assert(a.len() == a.to_multiset().len());
    assert(b.len() == b.to_multiset().len());
    if a.len() > 0 {
        assert(a.contains(a[0]));
        assert(a.to_multiset().count(a[0]) > 0);
        assert(b.to_multiset().count(a[0]) > 0);
        assert(b.contains(a[0]));
        assert(b.contains(b[0]));
        assert(b.to_multiset().count(b[0]) > 0);
        assert(a.to_multiset().count(b[0]) > 0);
        assert(a.contains(b[0]));
        let k = choose|k: int| 0 <= k < b.len() && b[k] == a[0];
        let m = choose|m: int| 0 <= m < a.len() && a[m] == b[0];
        if k > 0 {
            assert(rank_lt(b[0].0, b[k].0));
            if m > 0 {
                assert(rank_lt(a[0].0, a[m].0));
            }
        }
        assert(a[0] == b[0]);
        vstd::seq_lib::to_multiset_remove(a, 0);
        vstd::seq_lib::to_multiset_remove(b, 0);
        assert(a.remove(0) == a.drop_first());
        assert(b.remove(0) == b.drop_first());
        lemma_sorted_unique(a.drop_first(), b.drop_first());
        assert(a == seq![a[0]] + a.drop_first());
        assert(b == seq![b[0]] + b.drop_first());
    }
}

/// A sorted candidate's order starts with its key's weight difference.
proof fn lemma_ranked_difference(s: Seq<RankedMatch>, faces: Seq<FaceRecord>, style: Style, stretch: Stretch, weight: Weight, k: int)
    requires
        0 <= k < s.len(),
        s.to_multiset() == match_candidates(faces, style, stretch, weight).to_multiset(),
    ensures
        s[k].0.0 == s[k].1.font_weight_difference,
{
    let c = match_candidates(faces, style, stretch, weight);
    vstd::seq_lib::to_multiset_contains(s, s[k]);
    vstd::seq_lib::to_multiset_contains(c, s[k]);
    assert(s.contains(s[k]));
    let t = choose|t: int| 0 <= t < c.len() && c[t] == s[k];
    lemma_candidate_source(faces, style, stretch, weight, t);
}

/// Whether `a` comes strictly before `b`.
fn rank_less(a: &MatchRank, b: &MatchRank) -> (r: bool)
    ensures
        r == rank_lt(*a, *b),
{
    a.0 < b.0 || (a.0 == b.0 && (a.1 < b.1 || (a.1 == b.1 && (a.2 < b.2 || (a.2 == b.2 && a.3 < b.3)))))
}

/// Sort candidates with distinct orders.
fn sort_by_rank(items: Vec<RankedMatch>) -> (r: Vec<RankedMatch>)
    requires
        distinct_ranks(items@),
    ensures
        ranks_increasing(r@),
        r@.to_multiset() == items@.to_multiset(),
{
    broadcast use vstd::seq_lib::group_to_multiset_ensures;

    let mut sorted: Vec<RankedMatch> = Vec::new();
    let mut i: usize = 0;
    while i < items.len()
        invariant
            0 <= i <= items.len(),
            distinct_ranks(items@),
            ranks_increasing(sorted@),
            sorted@.to_multiset() == items@.take(i as int).to_multiset(),
        decreases items.len() - i,
    {
        let item = items[i];
        let mut p: usize = 0;
        while p < sorted.len() && rank_less(&sorted[p].0, &item.0)
            invariant
                0 <= p <= sorted.len(),
                forall|q: int| 0 <= q < p ==> rank_lt((#[trigger] sorted@[q]).0, item.0),
            decreases sorted.len() - p,
        {
            p = p + 1;
        }
        proof {
            assert forall|q: int| 0 <= q < sorted.len() implies (#[trigger] sorted@[q]).0 != item.0 by {
                assert(sorted@.contains(sorted@[q]));
                vstd::seq_lib::to_multiset_contains(sorted@, sorted@[q]);
                vstd::seq_lib::to_multiset_contains(items@.take(i as int), sorted@[q]);
                assert(items@.take(i as int).contains(sorted@[q]));
                let t = choose|t: int| 0 <= t < i && items@.take(i as int)[t] == sorted@[q];
                assert(items@[t] == sorted@[q]);
            }
            assert forall|q: int| p <= q < sorted.len() implies rank_lt(item.0, (#[trigger] sorted@[q]).0) by {
                if p < sorted.len() {
                    assert(!rank_lt(sorted@[p as int].0, item.0));
                    assert(sorted@[p as int].0 != item.0);
                    if q > p {
                        assert(rank_lt(sorted@[p as int].0, sorted@[q].0));
                    }
                }
            }
        }
        let ghost before = sorted@;
        sorted.insert(p, item);
        proof {
            vstd::seq_lib::to_multiset_insert(before, p as int, item);
            assert(items@.take(i + 1) == items@.take(i as int).push(item));
            vstd::seq_lib::to_multiset_build(items@.take(i as int), item);
            assert forall|a: int, b: int| 0 <= a < b < sorted@.len() implies rank_lt((#[trigger] sorted@[a]).0, (#[trigger] sorted@[b]).0) by {
                if b < p {
                } else if b == p {
                } else if a < p {
                    assert(rank_lt(before[a].0, item.0));
                    assert(rank_lt(item.0, before[b - 1].0));
                } else if a == p {
                } else {
                    assert(rank_lt(before[a - 1].0, before[b - 1].0));
                }
            }
        }
        i = i + 1;
    }
    proof {
        assert(items@.take(i as int) == items@);
    }
    sorted
}


/// The keys of the matching faces, sorted: a list that is increasing and
/// holds exactly the candidates is the one that [`match_keys`] names.
proof fn lemma_sorted_is_match_keys(s: Seq<RankedMatch>, faces: Seq<FaceRecord>, style: Style, stretch: Stretch, weight: Weight)
    requires
        ranks_increasing(s),
        s.to_multiset() == match_candidates(faces, style, stretch, weight).to_multiset(),
    ensures
        sorted_matches(faces, style, stretch, weight) == s,
        match_keys(faces, style, stretch, weight) == s.map_values(|m: RankedMatch| m.1),
{
    let chosen = sorted_matches(faces, style, stretch, weight);
    assert(ranks_increasing(chosen) && chosen.to_multiset() == match_candidates(faces, style, stretch, weight).to_multiset());
    lemma_sorted_unique(chosen, s);
}

/// The keys come in order of weight difference, nearest first.
pub open spec fn nearest_weight_first(keys: Seq<FontMatchKey>) -> bool {
    forall|i: int, j: int|
        0 <= i < j < keys.len() ==> (#[trigger] keys[i]).font_weight_difference <= (#[trigger] keys[j]).font_weight_difference
}

/// Where no match list is cached for attributes the same as `key`, no entry
/// has such attributes.
proof fn lemma_no_cached_matches(cache: Seq<(FontMatchAttributes, Arc<Vec<FontMatchKey>>)>, key: FontMatchAttributes)
    requires
        cached_matches(cache, key) is None,
    ensures
        forall|i: int| 0 <= i < cache.len() ==> !same_match_attributes((#[trigger] cache[i]).0, key),
    decreases cache.len(),
{
    if cache.len() > 0 {
        lemma_no_cached_matches(cache.drop_last(), key);
        assert forall|i: int| 0 <= i < cache.len() implies !same_match_attributes((#[trigger] cache[i]).0, key) by {
            if i < cache.len() - 1 {
                assert(cache[i] == cache.drop_last()[i]);
            }
        }
    }
}

/// A font that has been cached is found again: after the outcome of loading
/// the font of `id` is stored under the number of `id`, looking that number
/// up gives the outcome.
pub proof fn lemma_cached_font_found(cache: Map<u64, Option<Arc<Font>>>, id: fontdb::ID, font: Option<Arc<Font>>)
    ensures
        cache.insert(id_number(id), font).get(id_number(id)) == Some(font),
{
}

/// The match list cached under attributes the same as `key`, looked up from
/// the most recent entry back.
pub open spec fn cached_matches(
    cache: Seq<(FontMatchAttributes, Arc<Vec<FontMatchKey>>)>,
    key: FontMatchAttributes,
) -> Option<Arc<Vec<FontMatchKey>>>
    decreases cache.len(),
{
    if cache.len() == 0 {
        None
    } else if same_match_attributes(cache.last().0, key) {
        Some(cache.last().1)
    } else {
        cached_matches(cache.drop_last(), key)
    }
}

/// Access to the system fonts.
pub struct FontSystem {
    /// The locale of the system.
    pub locale: String,
    /// The underlying font database.
    pub database: fontdb::Database,
    /// Cache for loaded fonts from the database, keyed by the number of
    /// the font's ID.
    pub font_cache: HashMap<u64, Option<Arc<Font>>>,
    /// Cache for font matches.
    pub font_matches_cache: Vec<(FontMatchAttributes, Arc<Vec<FontMatchKey>>)>,
    /// Cache for `rustybuzz` shape plans.
    pub shape_plan_cache: ShapePlanCache,
}

/// The most font match lists kept before the cache is cleared.
pub const FONT_MATCHES_CACHE_LIMIT: usize = 1024;

/// The locale used where the system's is unknown.
pub open spec fn fallback_locale() -> Seq<char> {
    "en-US"@
}

impl FontSystem {
    /// Every cached font is the one of the ID whose number it is cached
    /// under, and holds what its loaded bytes give; no two cached match
    /// lists have the same attributes, and every cached match list is the
    /// one that the database gives its attributes.
    pub open spec fn wf(&self) -> bool {
        &&& forall|i: int, j: int|
            0 <= i < j < self.font_matches_cache@.len() ==> !same_match_attributes(
                (#[trigger] self.font_matches_cache@[i]).0,
                (#[trigger] self.font_matches_cache@[j]).0,
            )
        &&& forall|k: u64|
            #[trigger] self.font_cache@.contains_key(k) ==> (self.font_cache@[k] matches Some(font)
                ==> id_number(font.id) == k && font.read_from_data())
        &&& forall|i: int|
            0 <= i < self.font_matches_cache@.len() ==> (#[trigger] self.font_matches_cache@[i]).1@
                == match_keys(
                database_faces(self.database),
                self.font_matches_cache@[i].0.style,
                self.font_matches_cache@[i].0.stretch,
                self.font_matches_cache@[i].0.weight,
            ) && nearest_weight_first(self.font_matches_cache@[i].1@) && keys_of_matching_faces(
                database_faces(self.database),
                self.font_matches_cache@[i].0.style,
                self.font_matches_cache@[i].0.stretch,
                self.font_matches_cache@[i].0.weight,
                self.font_matches_cache@[i].1@,
            )
    }

    /// Creates a new font system over a font database and the system's
    /// locale, where one was found: the generic serif, sans-serif and
    /// monospace families are set to the CMU fonts, and the caches start empty.
    pub fn new(locale: Option<String>, database: fontdb::Database) -> (fs: Self)
        ensures
            fs.wf(),
            fs.locale@ == match locale {
                Some(l) => l@,
                None => fallback_locale(),
            },
            database_faces(fs.database) == database_faces(database),
            generic_family_name(fs.database, GenericFamily::Monospace) == "CMU Typewriter Text"@,
            generic_family_name(fs.database, GenericFamily::SansSerif) == "CMU Sans Serif"@,
            generic_family_name(fs.database, GenericFamily::Serif) == "CMU Serif"@,
            generic_family_name(fs.database, GenericFamily::Cursive) == generic_family_name(database, GenericFamily::Cursive),
            generic_family_name(fs.database, GenericFamily::Fantasy) == generic_family_name(database, GenericFamily::Fantasy),
            fs.font_cache@ == Map::<u64, Option<Arc<Font>>>::empty(),
            fs.font_matches_cache@.len() == 0,
            fs.shape_plan_cache.is_empty_cache(),
    {
        let locale = match locale {
            Some(locale) => locale,
            None => "en-US".to_owned(),
        };
        let mut database = database;
        set_monospace_family(&mut database, "CMU Typewriter Text");
        set_sans_serif_family(&mut database, "CMU Sans Serif");
        set_serif_family(&mut database, "CMU Serif");
        Self {
            locale,
            database,
            font_cache: HashMap::new(),
            font_matches_cache: Vec::new(),
            shape_plan_cache: ShapePlanCache::default(),
        }
    }

    /// Get a font from the database by its ID.
    ///
    /// The font is loaded the first time it is asked for, and the outcome,
    /// `None` included, is cached and given back from then on. A face whose
    /// data is a file that was not mapped into memory loads as `None`, as one
    /// whose file could not be mapped: mapping the files is for the caller,
    /// before the database is handed to [`FontSystem::new`].
    pub fn get_font(&mut self, font_id: fontdb::ID) -> (r: Option<Arc<Font>>)
        requires
            old(self).wf(),
        ensures
            final(self).wf(),
            r matches Some(font) ==> font.id == font_id && font.read_from_data(),
            final(self).locale == old(self).locale,
            final(self).database == old(self).database,
            final(self).font_matches_cache == old(self).font_matches_cache,
            final(self).shape_plan_cache == old(self).shape_plan_cache,
            match old(self).font_cache@.get(id_number(font_id)) {
                Some(font) => r == font && final(self).font_cache@ == old(self).font_cache@,
                None => {
                    &&& final(self).font_cache@ == old(self).font_cache@.insert(id_number(font_id), r)
                    &&& r is None && (exists|i: int|
                        0 <= i < database_faces(old(self).database).len()
                            && (#[trigger] database_faces(old(self).database)[i]).id == font_id
                            && database_faces(old(self).database)[i].source_kind != SourceKind::File) ==> exists|
                        i: int,
                        data: Seq<u8>,
                    |
                        #![trigger face_data_loads(data, database_faces(old(self).database)[i].index)]
                        0 <= i < database_faces(old(self).database).len()
                            && database_faces(old(self).database)[i].id == font_id
                            && !face_data_loads(data, database_faces(old(self).database)[i].index)
                    &&& !has_face(database_faces(old(self).database), font_id) ==> r is None
                    &&& (exists|i: int|
                        0 <= i < database_faces(old(self).database).len()
                            && (#[trigger] database_faces(old(self).database)[i]).id == font_id
                            && database_faces(old(self).database)[i].source_kind == SourceKind::File) ==> r is None
                    &&& r matches Some(font) ==> {
                        &&& font.id == font_id
                        &&& exists|i: int|
                            0 <= i < database_faces(old(self).database).len()
                                && (#[trigger] database_faces(old(self).database)[i]).id == font_id
                                && database_faces(old(self).database)[i].index == font.face_index
                    }
                },
            },
    {
        broadcast use vstd::std_specs::hash::group_hash_axioms;
        let key = font_id_number(&font_id);
        if let Some(font) = self.font_cache.get(&key) {
            return share_font(font);
        }
        let font = match Font::new(&self.database, font_id) {
            Some(font) => Some(Arc::new(font)),
            None => None,
        };
        self.font_cache.insert(key, share_font(&font));
        font
    }

    /// The font match keys of the database's faces for the attributes: the
    /// faces that match their style and stretch, nearest weight first.
    ///
    /// The answer is cached by the attributes' family, stretch, style and
    /// weight; the cache is cleared once it holds
    /// [`FONT_MATCHES_CACHE_LIMIT`] lists.
    pub fn get_font_matches(&mut self, attributes: Attributes) -> (r: Arc<Vec<FontMatchKey>>)
        requires
            old(self).wf(),
        ensures
            final(self).wf(),
            r@ == match_keys(database_faces(old(self).database), attributes.style, attributes.stretch, attributes.weight),
            nearest_weight_first(r@),
            keys_of_matching_faces(
                database_faces(old(self).database),
                attributes.style,
                attributes.stretch,
                attributes.weight,
                r@,
            ),
            final(self).locale == old(self).locale,
            final(self).database == old(self).database,
            final(self).font_cache == old(self).font_cache,
            final(self).shape_plan_cache == old(self).shape_plan_cache,
            ({
                let kept = if old(self).font_matches_cache@.len() >= FONT_MATCHES_CACHE_LIMIT {
                    Seq::empty()
                } else {
                    old(self).font_matches_cache@
                };
                let key = match_attributes_of(attributes);
                match cached_matches(kept, key) {
                    Some(found) => r == found && final(self).font_matches_cache@ == kept,
                    None => final(self).font_matches_cache@ == kept.push((key, r)),
                }
            }),
    {
        // Clear the cache first if it reached the size limit
        if self.font_matches_cache.len() >= FONT_MATCHES_CACHE_LIMIT {
            self.font_matches_cache.clear();
        }
        let key = FontMatchAttributes::from(attributes);
        if let Some(i) = find_cached_matches(&self.font_matches_cache, &key) {
            return arc_clone(&self.font_matches_cache[i].1);
        }

        proof {
            lemma_no_cached_matches(self.font_matches_cache@, key);
        }
        let faces = database_face_list(&self.database);
        let ghost style = attributes.style;
        let ghost stretch = attributes.stretch;
        let ghost weight = attributes.weight;
        let mut candidates: Vec<RankedMatch> = Vec::new();
        let mut i: usize = 0;
        while i < faces.len()
            invariant
                0 <= i <= faces.len(),
                candidates@ == match_candidates(faces@.take(i as int), style, stretch, weight),
                style == attributes.style && stretch == attributes.stretch && weight == attributes.weight,
            decreases faces.len() - i,
        {
            let face = &faces[i];
            proof {
                assert(faces@.take(i + 1).drop_last() == faces@.take(i as int));
            }
            if attributes.matches(face) {
                let font_weight_difference = if attributes.weight.0 >= face.weight.0 {
                    attributes.weight.0 - face.weight.0
                } else {
                    face.weight.0 - attributes.weight.0
                };
                let slot = (face.id_bits % 0x1_0000_0000u64) as u32;
                let version = (face.id_bits / 0x1_0000_0000u64) as u32;
                candidates.push((
                    (font_weight_difference, face.weight.0, slot, version),
                    FontMatchKey { font_weight_difference, font_weight: face.weight.0, id: face.id },
                ));
            }
            i = i + 1;
        }
        proof {
            assert(faces@.take(i as int) == faces@);
            lemma_candidates_distinct(faces@, style, stretch, weight);
        }

        // Sort so we get the keys with weight_offset = 0 first
        let sorted = sort_by_rank(candidates);
        let mut font_match_keys: Vec<FontMatchKey> = Vec::new();
        let mut j: usize = 0;
        while j < sorted.len()
            invariant
                0 <= j <= sorted.len(),
                font_match_keys@ == sorted@.take(j as int).map_values(|m: RankedMatch| m.1),
            decreases sorted.len() - j,
        {
            font_match_keys.push(sorted[j].1);
            proof {
                assert(sorted@.take(j + 1).map_values(|m: RankedMatch| m.1) == sorted@.take(j as int).map_values(
                    |m: RankedMatch| m.1,
                ).push(sorted@[j as int].1));
            }
            j = j + 1;
        }
        proof {
            assert(sorted@.take(j as int) == sorted@);
            lemma_sorted_is_match_keys(sorted@, faces@, style, stretch, weight);
            lemma_sorted_keys_of_matching_faces(sorted@, faces@, style, stretch, weight);
            assert forall|a: int, b: int| 0 <= a < b < font_match_keys@.len() implies (#[trigger] font_match_keys@[a]).font_weight_difference
                <= (#[trigger] font_match_keys@[b]).font_weight_difference by {
                assert(rank_lt(sorted@[a].0, sorted@[b].0));
                lemma_ranked_difference(sorted@, faces@, style, stretch, weight, a);
                lemma_ranked_difference(sorted@, faces@, style, stretch, weight, b);
            }
        }
        let font_match_keys = Arc::new(font_match_keys);
        self.font_matches_cache.push((key, arc_clone(&font_match_keys)));
        font_match_keys
    }
}

/// Another handle on the same cached font, or `None`.
fn share_font(font: &Option<Arc<Font>>) -> (r: Option<Arc<Font>>)
    ensures
        r == *font,
{
    match font {
        Some(font) => Some(arc_clone(font)),
        None => None,
    }
}

/// The position of the most recent cache entry for attributes the same as `key`.
fn find_cached_matches(cache: &Vec<(FontMatchAttributes, Arc<Vec<FontMatchKey>>)>, key: &FontMatchAttributes) -> (r: Option<usize>)
    ensures
        match r {
            Some(i) => i < cache@.len() && cached_matches(cache@, *key) == Some(cache@[i as int].1)
                && same_match_attributes(cache@[i as int].0, *key),
            None => cached_matches(cache@, *key) is None,
        },
{
    let mut n = cache.len();
    proof {
        assert(cache@.take(n as int) == cache@);
    }
    while n > 0
        invariant
            0 <= n <= cache@.len(),
            cached_matches(cache@, *key) == cached_matches(cache@.take(n as int), *key),
        decreases n,
    {
        proof {
            assert(cache@.take(n as int).drop_last() == cache@.take(n - 1));
            assert(cache@.take(n as int).last() == cache@[n - 1]);
        }
        if cache[n - 1].0.eq(key) {
            return Some(n - 1);
        }
        n = n - 1;
    }
    None
}

} // verus!
