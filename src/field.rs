//! The asset field grammar: a builder that gathers the attributes found on one
//! field of an asset collection, and the validation that turns it into a
//! description of the field or into a list of errors.

use proc_macro2::Ident;
use vstd::prelude::*;

verus! {

/// `proc_macro2::Ident`, the name of the annotated field: held and handed on,
/// never inspected.
#[verifier::external_type_specification]
#[verifier::external_body]
pub struct ExIdent(Ident);

/// A single-precision IEEE 754 number, held as its bit pattern.
#[derive(Clone, Copy, PartialEq, Eq, Debug, Structural)]
pub struct FloatBits {
    pub bits: u32,
}

impl FloatBits {
    /// Positive zero, the default of an absent padding.
    pub open spec fn spec_zero() -> FloatBits {
        FloatBits { bits: 0 }
    }

    pub fn zero() -> (r: FloatBits)
        ensures
            r == FloatBits::spec_zero(),
    {
        FloatBits { bits: 0 }
    }

    pub fn from_bits(bits: u32) -> (r: FloatBits)
        ensures
            r.bits == bits,
    {
        FloatBits { bits }
    }
}

/// Name of the attribute group that holds a texture atlas's geometry.
pub const TEXTURE_ATLAS_ATTRIBUTE: &'static str = "texture_atlas";

/// Names of the attributes inside the texture atlas group.
pub const TILE_SIZE_X: &'static str = "tile_size_x";
pub const TILE_SIZE_Y: &'static str = "tile_size_y";
pub const COLUMNS: &'static str = "columns";
pub const ROWS: &'static str = "rows";

/// The name under which a missing texture atlas attribute is reported.
pub open spec fn atlas_attribute_name(attr: Seq<char>) -> Seq<char> {
    TEXTURE_ATLAS_ATTRIBUTE@ + "/"@ + attr
}

/// A texture atlas: one image cut into a grid of `columns` by `rows` tiles.
#[derive(PartialEq, Debug)]
pub struct TextureAtlasAssetField {
    pub field_ident: Ident,
    pub asset_path: String,
    pub tile_size_x: FloatBits,
    pub tile_size_y: FloatBits,
    pub columns: usize,
    pub rows: usize,
    pub padding_x: FloatBits,
    pub padding_y: FloatBits,
}

/// A field loaded from one path (a file, or a folder).
#[derive(PartialEq, Debug)]
pub struct BasicAssetField {
    pub field_ident: Ident,
    pub asset_path: String,
}

/// A field whose path is looked up at run time under `key`.
#[derive(PartialEq, Debug)]
pub struct DynamicAssetField {
    pub field_ident: Ident,
    pub key: String,
}

/// A validated field of an asset collection.
#[derive(PartialEq, Debug)]
pub enum AssetField {
    Basic(BasicAssetField),
    Dynamic(DynamicAssetField),
    StandardMaterial(BasicAssetField),
    Folder(BasicAssetField),
    TextureAtlas(TextureAtlasAssetField),
}

/// Why a field's attributes do not describe an asset.
#[derive(PartialEq, Debug)]
pub enum ParseFieldError {
    NoAttributes,
    KeyAttributeStandsAlone,
    EitherSingleAssetOrFolder,
    MissingAttributes(Vec<String>),
}

/// A `ParseFieldError` with the names of missing attributes as sequences of characters.
pub enum FieldErrorView {
    NoAttributes,
    KeyAttributeStandsAlone,
    EitherSingleAssetOrFolder,
    MissingAttributes(Seq<Seq<char>>),
}

impl View for ParseFieldError {
    type V = FieldErrorView;

    open spec fn view(&self) -> FieldErrorView {
        match self {
            ParseFieldError::NoAttributes => FieldErrorView::NoAttributes,
            ParseFieldError::KeyAttributeStandsAlone => FieldErrorView::KeyAttributeStandsAlone,
            ParseFieldError::EitherSingleAssetOrFolder => FieldErrorView::EitherSingleAssetOrFolder,
            ParseFieldError::MissingAttributes(names) => FieldErrorView::MissingAttributes(
                names.deep_view(),
            ),
        }
    }
}

/// The outcome of validating a field, with each error seen through its view.
pub open spec fn outcome_view(r: Result<AssetField, Vec<ParseFieldError>>) -> Result<
    AssetField,
    Seq<FieldErrorView>,
> {
    match r {
        Ok(field) => Ok(field),
        Err(errors) => Err(errors@.map_values(|e: ParseFieldError| e@)),
    }
}

/// The attributes gathered from one field declaration, at most one value each.
#[derive(Default)]
pub struct AssetBuilder {
    pub field_ident: Option<Ident>,
    pub asset_path: Option<String>,
    pub folder_path: Option<String>,
    pub is_standard_material: bool,
    pub key: Option<String>,
    pub tile_size_x: Option<FloatBits>,
    pub tile_size_y: Option<FloatBits>,
    pub columns: Option<usize>,
    pub rows: Option<usize>,
    pub padding_x: Option<FloatBits>,
    pub padding_y: Option<FloatBits>,
}

impl AssetBuilder {
    /// None of the three ways to find the asset (path, folder, key) is given.
    pub open spec fn has_no_source(self) -> bool {
        self.asset_path.is_none() && self.folder_path.is_none() && self.key.is_none()
    }

    /// Some texture atlas attribute, mandatory or padding, is given.
    pub open spec fn has_atlas_attribute(self) -> bool {
        self.tile_size_x.is_some() || self.tile_size_y.is_some() || self.columns.is_some()
            || self.rows.is_some() || self.padding_x.is_some() || self.padding_y.is_some()
    }

    /// Some attribute other than the key is given.
    pub open spec fn has_attribute_besides_key(self) -> bool {
        self.asset_path.is_some() || self.folder_path.is_some() || self.is_standard_material
            || self.has_atlas_attribute()
    }

    /// The mandatory texture atlas attributes that are absent, in declaration order.
    pub open spec fn missing_atlas_attributes(self) -> Seq<Seq<char>> {
        (if self.tile_size_x.is_none() {
            seq![atlas_attribute_name(TILE_SIZE_X@)]
        } else {
            Seq::empty()
        }) + (if self.tile_size_y.is_none() {
            seq![atlas_attribute_name(TILE_SIZE_Y@)]
        } else {
            Seq::empty()
        }) + (if self.columns.is_none() {
            seq![atlas_attribute_name(COLUMNS@)]
        } else {
            Seq::empty()
        }) + (if self.rows.is_none() {
            seq![atlas_attribute_name(ROWS@)]
        } else {
            Seq::empty()
        })
    }

    /// All four mandatory texture atlas attributes are given.
    pub open spec fn has_full_atlas(self) -> bool {
        self.tile_size_x.is_some() && self.tile_size_y.is_some() && self.columns.is_some()
            && self.rows.is_some()
    }

    /// The path of a texture atlas: the file path if one is given, else the folder.
    pub open spec fn atlas_path(self) -> String {
        match self.asset_path {
            Some(p) => p,
            None => self.folder_path.unwrap(),
        }
    }

    /// What validation yields: the first of the terminal errors that applies,
    /// else the field that the combination of attributes describes.
    pub open spec fn spec_build(self) -> Result<AssetField, Seq<FieldErrorView>> {
        let missing = self.missing_atlas_attributes();
        if self.has_no_source() {
            Err(seq![FieldErrorView::NoAttributes])
        } else if self.key.is_some() && self.has_attribute_besides_key() {
            Err(seq![FieldErrorView::KeyAttributeStandsAlone])
        } else if self.folder_path.is_some() && self.asset_path.is_some() {
            Err(seq![FieldErrorView::EitherSingleAssetOrFolder])
        } else if missing.len() == 4 {
            if self.key.is_some() {
                Ok(
                    AssetField::Dynamic(
                        DynamicAssetField {
                            field_ident: self.field_ident.unwrap(),
                            key: self.key.unwrap(),
                        },
                    ),
                )
            } else if self.folder_path.is_some() {
                Ok(
                    AssetField::Folder(
                        BasicAssetField {
                            field_ident: self.field_ident.unwrap(),
                            asset_path: self.folder_path.unwrap(),
                        },
                    ),
                )
            } else if self.is_standard_material {
                Ok(
                    AssetField::StandardMaterial(
                        BasicAssetField {
                            field_ident: self.field_ident.unwrap(),
                            asset_path: self.asset_path.unwrap(),
                        },
                    ),
                )
            } else {
                Ok(
                    AssetField::Basic(
                        BasicAssetField {
                            field_ident: self.field_ident.unwrap(),
                            asset_path: self.asset_path.unwrap(),
                        },
                    ),
                )
            }
        } else if missing.len() == 0 {
            Ok(
                AssetField::TextureAtlas(
                    TextureAtlasAssetField {
                        field_ident: self.field_ident.unwrap(),
                        asset_path: self.atlas_path(),
                        tile_size_x: self.tile_size_x.unwrap(),
                        tile_size_y: self.tile_size_y.unwrap(),
                        columns: self.columns.unwrap(),
                        rows: self.rows.unwrap(),
                        padding_x: padding_or_zero(self.padding_x),
                        padding_y: padding_or_zero(self.padding_y),
                    },
                ),
            )
        } else {
            Err(seq![FieldErrorView::MissingAttributes(missing)])
        }
    }
}

impl AssetBuilder {
    /// Validates the gathered attributes. The checks for no source, for a key
    /// beside other attributes and for both a path and a folder end validation
    /// in that order; then a texture atlas must be given whole or not at all.
    pub fn build(self) -> (r: Result<AssetField, Vec<ParseFieldError>>)
        requires
            self.field_ident.is_some(),
        ensures
            outcome_view(r) == self.spec_build(),
    {
        let ghost b = self;
        let mut missing_fields: Vec<String> = Vec::new();
        if self.tile_size_x.is_none() {
            missing_fields.push(missing_attribute_name(TILE_SIZE_X));
        }
        if self.tile_size_y.is_none() {
            missing_fields.push(missing_attribute_name(TILE_SIZE_Y));
        }
        if self.columns.is_none() {
            missing_fields.push(missing_attribute_name(COLUMNS));
        }
        if self.rows.is_none() {
            missing_fields.push(missing_attribute_name(ROWS));
        }
        assert(missing_fields.deep_view() =~= b.missing_atlas_attributes());
        if self.asset_path.is_none() && self.folder_path.is_none() && self.key.is_none() {
            let r = Err(vec![ParseFieldError::NoAttributes]);
            assert(outcome_view(r)->Err_0 =~= b.spec_build()->Err_0);
            return r;
        }
        if self.key.is_some() && (self.folder_path.is_some() || self.asset_path.is_some()
            || missing_fields.len() < 4 || self.padding_x.is_some() || self.padding_y.is_some()
            || self.is_standard_material) {
            let r = Err(vec![ParseFieldError::KeyAttributeStandsAlone]);
            assert(outcome_view(r)->Err_0 =~= b.spec_build()->Err_0);
            return r;
        }
        if self.folder_path.is_some() && self.asset_path.is_some() {
            let r = Err(vec![ParseFieldError::EitherSingleAssetOrFolder]);
            assert(outcome_view(r)->Err_0 =~= b.spec_build()->Err_0);
            return r;
        }
        if missing_fields.len() == 4 {
            if self.key.is_some() {
                return Ok(
                    AssetField::Dynamic(
                        DynamicAssetField {
                            field_ident: self.field_ident.unwrap(),
                            key: self.key.unwrap(),
                        },
                    ),
                );
            }
            if self.folder_path.is_some() {
                return Ok(
                    AssetField::Folder(
                        BasicAssetField {
                            field_ident: self.field_ident.unwrap(),
                            asset_path: self.folder_path.unwrap(),
                        },
                    ),
                );
            }
            let asset = BasicAssetField {
                field_ident: self.field_ident.unwrap(),
                asset_path: self.asset_path.unwrap(),
            };
            if self.is_standard_material {
                return Ok(AssetField::StandardMaterial(asset));
            }
            return Ok(AssetField::Basic(asset));
        }
        if missing_fields.len() == 0 {
            let asset_path = match self.asset_path {
                Some(p) => p,
                None => self.folder_path.unwrap(),
            };
            return Ok(
                AssetField::TextureAtlas(
                    TextureAtlasAssetField {
                        field_ident: self.field_ident.unwrap(),
                        asset_path,
                        tile_size_x: self.tile_size_x.unwrap(),
                        tile_size_y: self.tile_size_y.unwrap(),
                        columns: self.columns.unwrap(),
                        rows: self.rows.unwrap(),
                        padding_x: padding_or_default(self.padding_x),
                        padding_y: padding_or_default(self.padding_y),
                    },
                ),
            );
        }
        let r = Err(vec![ParseFieldError::MissingAttributes(missing_fields)]);
        assert(outcome_view(r)->Err_0 =~= b.spec_build()->Err_0);
        r
    }
}

/// The name of a missing texture atlas attribute, as reported.
pub fn missing_attribute_name(attr: &str) -> (r: String)
    ensures
        r@ == atlas_attribute_name(attr@),
{
    let mut name = TEXTURE_ATLAS_ATTRIBUTE.to_owned();
    name.append("/");
    name.append(attr);
    name
}

/// A padding as given, or zero when absent.
pub fn padding_or_default(p: Option<FloatBits>) -> (r: FloatBits)
    ensures
        r == padding_or_zero(p),
{
    match p {
        Some(v) => v,
        None => FloatBits::zero(),
    }
}

/// A padding as given, or zero when absent.
pub open spec fn padding_or_zero(p: Option<FloatBits>) -> FloatBits {
    match p {
        Some(v) => v,
        None => FloatBits::spec_zero(),
    }
}

} // verus!

verus! {

/// A declaration with none of path, folder and key is rejected with `NoAttributes`.
pub proof fn lemma_no_source_is_rejected(b: AssetBuilder)
    requires
        b.has_no_source(),
    ensures
        b.spec_build() == Err::<AssetField, _>(seq![FieldErrorView::NoAttributes]),
{
}

/// A key together with any other attribute is rejected with `KeyAttributeStandsAlone`.
pub proof fn lemma_key_stands_alone(b: AssetBuilder)
    requires
        b.key.is_some(),
        b.has_attribute_besides_key(),
    ensures
        b.spec_build() == Err::<AssetField, _>(seq![FieldErrorView::KeyAttributeStandsAlone]),
{
}

/// Without a key, a path together with a folder is rejected with
/// `EitherSingleAssetOrFolder`.
pub proof fn lemma_path_and_folder_are_exclusive(b: AssetBuilder)
    requires
        b.asset_path.is_some(),
        b.folder_path.is_some(),
        b.key.is_none(),
    ensures
        b.spec_build() == Err::<AssetField, _>(seq![FieldErrorView::EitherSingleAssetOrFolder]),
{
}

/// With one path source and no key, a texture atlas given in part is rejected
/// with `MissingAttributes`, which lists exactly the absent mandatory attributes.
pub proof fn lemma_partial_atlas_lists_missing(b: AssetBuilder)
    requires
        b.key.is_none(),
        b.asset_path.is_some() != b.folder_path.is_some(),
        !b.has_full_atlas(),
        b.tile_size_x.is_some() || b.tile_size_y.is_some() || b.columns.is_some()
            || b.rows.is_some(),
    ensures
        b.spec_build() == Err::<AssetField, _>(
            seq![FieldErrorView::MissingAttributes(b.missing_atlas_attributes())],
        ),
        1 <= b.missing_atlas_attributes().len() <= 3,
        b.missing_atlas_attributes().contains(atlas_attribute_name(TILE_SIZE_X@))
            <==> b.tile_size_x.is_none(),
        b.missing_atlas_attributes().contains(atlas_attribute_name(TILE_SIZE_Y@))
            <==> b.tile_size_y.is_none(),
        b.missing_atlas_attributes().contains(atlas_attribute_name(COLUMNS@))
            <==> b.columns.is_none(),
        b.missing_atlas_attributes().contains(atlas_attribute_name(ROWS@)) <==> b.rows.is_none(),
{
    lemma_atlas_names_differ();
    let m = b.missing_atlas_attributes();
    let x = atlas_attribute_name(TILE_SIZE_X@);
    let y = atlas_attribute_name(TILE_SIZE_Y@);
    let c = atlas_attribute_name(COLUMNS@);
    let r = atlas_attribute_name(ROWS@);
    let p1 = if b.tile_size_x.is_none() { seq![x] } else { Seq::<Seq<char>>::empty() };
    let p2 = if b.tile_size_y.is_none() { seq![y] } else { Seq::<Seq<char>>::empty() };
    let p3 = if b.columns.is_none() { seq![c] } else { Seq::<Seq<char>>::empty() };
    let p4 = if b.rows.is_none() { seq![r] } else { Seq::<Seq<char>>::empty() };
    assert(m == p1 + p2 + p3 + p4);
    assert forall|n: Seq<char>| m.contains(n) <==> (p1.contains(n) || p2.contains(n) || p3.contains(n) || p4.contains(n)) by {
        lemma_concat_contains(p1, p2, n);
        lemma_concat_contains(p1 + p2, p3, n);
        lemma_concat_contains(p1 + p2 + p3, p4, n);
    }
    assert(p1.contains(x) <==> b.tile_size_x.is_none()) by {
        if b.tile_size_x.is_none() {
            assert(p1[0] == x);
        }
    }
    assert(p2.contains(y) <==> b.tile_size_y.is_none()) by {
        if b.tile_size_y.is_none() {
            assert(p2[0] == y);
        }
    }
    assert(p3.contains(c) <==> b.columns.is_none()) by {
        if b.columns.is_none() {
            assert(p3[0] == c);
        }
    }
    assert(p4.contains(r) <==> b.rows.is_none()) by {
        if b.rows.is_none() {
            assert(p4[0] == r);
        }
    }
}

/// An element lies in a concatenation exactly when it lies in one of its parts.
proof fn lemma_concat_contains<A>(a: Seq<A>, b: Seq<A>, x: A)
    ensures
        (a + b).contains(x) <==> (a.contains(x) || b.contains(x)),
{
    if a.contains(x) {
        let i = choose|i: int| 0 <= i < a.len() && a[i] == x;
        assert((a + b)[i] == x);
    }
    if b.contains(x) {
        let i = choose|i: int| 0 <= i < b.len() && b[i] == x;
        assert((a + b)[a.len() + i] == x);
    }
    if (a + b).contains(x) {
        let i = choose|i: int| 0 <= i < (a + b).len() && (a + b)[i] == x;
        if i < a.len() {
            assert(a[i] == x);
        } else {
            assert(b[i - a.len()] == x);
        }
    }
}

/// The four reported names of the mandatory texture atlas attributes are distinct.
proof fn lemma_atlas_names_differ()
    ensures
        atlas_attribute_name(TILE_SIZE_X@) != atlas_attribute_name(TILE_SIZE_Y@),
        atlas_attribute_name(TILE_SIZE_X@) != atlas_attribute_name(COLUMNS@),
        atlas_attribute_name(TILE_SIZE_X@) != atlas_attribute_name(ROWS@),
        atlas_attribute_name(TILE_SIZE_Y@) != atlas_attribute_name(COLUMNS@),
        atlas_attribute_name(TILE_SIZE_Y@) != atlas_attribute_name(ROWS@),
        atlas_attribute_name(COLUMNS@) != atlas_attribute_name(ROWS@),
{
    reveal_strlit("texture_atlas");
    reveal_strlit("/");
    reveal_strlit("tile_size_x");
    reveal_strlit("tile_size_y");
    reveal_strlit("columns");
    reveal_strlit("rows");
    let p = TEXTURE_ATLAS_ATTRIBUTE@ + "/"@;
    assert(p.len() == 14);
    assert(atlas_attribute_name(TILE_SIZE_X@)[24] != atlas_attribute_name(TILE_SIZE_Y@)[24]);
    assert(atlas_attribute_name(TILE_SIZE_X@).len() != atlas_attribute_name(COLUMNS@).len());
    assert(atlas_attribute_name(TILE_SIZE_X@).len() != atlas_attribute_name(ROWS@).len());
    assert(atlas_attribute_name(TILE_SIZE_Y@).len() != atlas_attribute_name(COLUMNS@).len());
    assert(atlas_attribute_name(TILE_SIZE_Y@).len() != atlas_attribute_name(ROWS@).len());
    assert(atlas_attribute_name(COLUMNS@).len() != atlas_attribute_name(ROWS@).len());
}

/// A texture atlas with all four mandatory attributes, one path source and no
/// padding is built from the given path and geometry, with both paddings zero.
pub proof fn lemma_atlas_padding_defaults_to_zero(b: AssetBuilder)
    requires
        b.has_full_atlas(),
        b.padding_x.is_none(),
        b.padding_y.is_none(),
        b.asset_path.is_some() != b.folder_path.is_some(),
        b.key.is_none(),
    ensures
        b.spec_build() is Ok,
        b.spec_build()->Ok_0 is TextureAtlas,
        b.spec_build()->Ok_0->TextureAtlas_0.field_ident == b.field_ident.unwrap(),
        b.asset_path.is_some() ==> b.spec_build()->Ok_0->TextureAtlas_0.asset_path
            == b.asset_path.unwrap(),
        b.asset_path.is_none() ==> b.spec_build()->Ok_0->TextureAtlas_0.asset_path
            == b.folder_path.unwrap(),
        b.spec_build()->Ok_0->TextureAtlas_0.tile_size_x == b.tile_size_x.unwrap(),
        b.spec_build()->Ok_0->TextureAtlas_0.tile_size_y == b.tile_size_y.unwrap(),
        b.spec_build()->Ok_0->TextureAtlas_0.columns == b.columns.unwrap(),
        b.spec_build()->Ok_0->TextureAtlas_0.rows == b.rows.unwrap(),
        b.spec_build()->Ok_0->TextureAtlas_0.padding_x == FloatBits::spec_zero(),
        b.spec_build()->Ok_0->TextureAtlas_0.padding_y == FloatBits::spec_zero(),
        FloatBits::spec_zero().bits == 0,
{
}

/// Validating the same declaration twice gives the same outcome.
pub proof fn lemma_build_is_deterministic(
    b: AssetBuilder,
    r1: Result<AssetField, Vec<ParseFieldError>>,
    r2: Result<AssetField, Vec<ParseFieldError>>,
)
    requires
        outcome_view(r1) == b.spec_build(),
        outcome_view(r2) == b.spec_build(),
    ensures
        outcome_view(r1) == outcome_view(r2),
{
}

} // verus!
