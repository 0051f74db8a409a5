use bevy_asset_loader_derive::field::{
    missing_attribute_name, AssetBuilder, AssetField, BasicAssetField, DynamicAssetField,
    FloatBits, ParseFieldError, TextureAtlasAssetField, COLUMNS, ROWS, TILE_SIZE_X, TILE_SIZE_Y,
};
use proc_macro2::{Ident, Span};

fn float(v: f32) -> FloatBits {
    FloatBits::from_bits(v.to_bits())
}

fn asset_builder_dynamic() -> AssetBuilder {
    AssetBuilder {
        field_ident: Some(Ident::new("test", Span::call_site())),
        key: Some("some.asset.key".to_owned()),
        ..AssetBuilder::default()
    }
}

fn atlas_builder() -> AssetBuilder {
    AssetBuilder {
        field_ident: Some(Ident::new("test", Span::call_site())),
        asset_path: Some("some/folder".to_owned()),
        tile_size_x: Some(float(100.)),
        tile_size_y: Some(float(50.)),
        columns: Some(10),
        rows: Some(5),
        ..Default::default()
    }
}

#[test]
fn basic_asset() {
    let builder = AssetBuilder {
        field_ident: Some(Ident::new("test", Span::call_site())),
        asset_path: Some("some/image.png".to_owned()),
        ..Default::default()
    };

    let asset = builder.build().expect("This should be a valid BasicAsset");
    assert_eq!(
        asset,
        AssetField::Basic(BasicAssetField {
            field_ident: Ident::new("test", Span::call_site()),
            asset_path: "some/image.png".to_owned()
        })
    );
}

#[test]
fn standard_material() {
    let builder = AssetBuilder {
        field_ident: Some(Ident::new("test", Span::call_site())),
        asset_path: Some("some/image.png".to_owned()),
        is_standard_material: true,
        ..Default::default()
    };

    let asset = builder.build().expect("This should be a valid BasicAsset");
    assert_eq!(
        asset,
        AssetField::StandardMaterial(BasicAssetField {
            field_ident: Ident::new("test", Span::call_site()),
            asset_path: "some/image.png".to_owned()
        })
    );
}

#[test]
fn folder() {
    let builder = AssetBuilder {
        field_ident: Some(Ident::new("test", Span::call_site())),
        folder_path: Some("some/folder.png".to_owned()),
        ..Default::default()
    };

    let asset = builder.build().expect("This should be a valid folder asset");
    assert_eq!(
        asset,
        AssetField::Folder(BasicAssetField {
            field_ident: Ident::new("test", Span::call_site()),
            asset_path: "some/folder.png".to_owned()
        })
    );
}

#[test]
fn dynamic_asset() {
    let builder = AssetBuilder {
        field_ident: Some(Ident::new("test", Span::call_site())),
        key: Some("some.asset.key".to_owned()),
        ..Default::default()
    };

    let asset = builder
        .build()
        .expect("This should be a valid DynamicAsset");
    assert_eq!(
        asset,
        AssetField::Dynamic(DynamicAssetField {
            field_ident: Ident::new("test", Span::call_site()),
            key: "some.asset.key".to_owned()
        })
    );
}

#[test]
fn texture_atlas() {
    let builder = AssetBuilder {
        field_ident: Some(Ident::new("test", Span::call_site())),
        asset_path: Some("some/folder".to_owned()),
        tile_size_x: Some(float(100.)),
        tile_size_y: Some(float(50.)),
        columns: Some(10),
        rows: Some(5),
        padding_x: Some(float(2.)),
        ..Default::default()
    };

    let asset = builder
        .build()
        .expect("This should be a valid TextureAtlasAsset");
    assert_eq!(
        asset,
        AssetField::TextureAtlas(TextureAtlasAssetField {
            field_ident: Ident::new("test", Span::call_site()),
            asset_path: "some/folder".to_owned(),
            tile_size_x: float(100.0),
            tile_size_y: float(50.0),
            columns: 10,
            rows: 5,
            padding_x: float(2.0),
            padding_y: float(0.0)
        })
    );
}

#[test]
fn dynamic_asset_does_not_accept_more_attributes() {
    let mut builder = asset_builder_dynamic();
    builder.asset_path = Some("path".to_owned());
    assert!(builder.build().is_err());

    let mut builder = asset_builder_dynamic();
    builder.folder_path = Some("path".to_owned());
    assert!(builder.build().is_err());

    let mut builder = asset_builder_dynamic();
    builder.is_standard_material = true;
    assert!(builder.build().is_err());

    // Required texture atlas field
    let mut builder = asset_builder_dynamic();
    builder.columns = Some(5);
    assert!(builder.build().is_err());

    // Optional texture atlas field
    let mut builder = asset_builder_dynamic();
    builder.padding_y = Some(float(5.0));
    assert!(builder.build().is_err());
}

#[test]
fn key_with_other_attribute_names_the_error() {
    let mut builder = asset_builder_dynamic();
    builder.padding_x = Some(float(1.0));
    assert_eq!(
        builder.build(),
        Err(vec![ParseFieldError::KeyAttributeStandsAlone])
    );

    let mut builder = asset_builder_dynamic();
    builder.folder_path = Some("path".to_owned());
    builder.asset_path = Some("path".to_owned());
    assert_eq!(
        builder.build(),
        Err(vec![ParseFieldError::KeyAttributeStandsAlone])
    );
}

#[test]
fn no_attributes_is_rejected() {
    let builder = AssetBuilder {
        field_ident: Some(Ident::new("test", Span::call_site())),
        is_standard_material: true,
        columns: Some(3),
        ..Default::default()
    };
    assert_eq!(builder.build(), Err(vec![ParseFieldError::NoAttributes]));

    let builder = AssetBuilder {
        field_ident: Some(Ident::new("test", Span::call_site())),
        ..Default::default()
    };
    assert_eq!(builder.build(), Err(vec![ParseFieldError::NoAttributes]));
}

#[test]
fn path_and_folder_are_exclusive() {
    let builder = AssetBuilder {
        field_ident: Some(Ident::new("test", Span::call_site())),
        asset_path: Some("some/image.png".to_owned()),
        folder_path: Some("some/folder".to_owned()),
        ..Default::default()
    };
    assert_eq!(
        builder.build(),
        Err(vec![ParseFieldError::EitherSingleAssetOrFolder])
    );
}

#[test]
fn partial_atlas_lists_missing_attributes() {
    let mut builder = atlas_builder();
    builder.tile_size_y = None;
    builder.rows = None;
    assert_eq!(
        builder.build(),
        Err(vec![ParseFieldError::MissingAttributes(vec![
            "texture_atlas/tile_size_y".to_owned(),
            "texture_atlas/rows".to_owned(),
        ])])
    );

    let builder = AssetBuilder {
        field_ident: Some(Ident::new("test", Span::call_site())),
        folder_path: Some("some/folder".to_owned()),
        columns: Some(4),
        ..Default::default()
    };
    assert_eq!(
        builder.build(),
        Err(vec![ParseFieldError::MissingAttributes(vec![
            "texture_atlas/tile_size_x".to_owned(),
            "texture_atlas/tile_size_y".to_owned(),
            "texture_atlas/rows".to_owned(),
        ])])
    );
}

#[test]
fn atlas_without_padding_has_zero_padding() {
    let asset = atlas_builder().build().expect("a complete texture atlas");
    match asset {
        AssetField::TextureAtlas(atlas) => {
            assert_eq!(f32::from_bits(atlas.padding_x.bits), 0.0);
            assert_eq!(f32::from_bits(atlas.padding_y.bits), 0.0);
            assert_eq!(atlas.padding_x, FloatBits::zero());
            assert_eq!(atlas.columns, 10);
            assert_eq!(atlas.rows, 5);
        }
        other => panic!("expected a texture atlas, got {:?}", other),
    }
}

#[test]
fn building_twice_gives_the_same_outcome() {
    assert_eq!(atlas_builder().build(), atlas_builder().build());
    let mut partial = atlas_builder();
    partial.columns = None;
    let mut again = atlas_builder();
    again.columns = None;
    assert_eq!(partial.build(), again.build());
}

#[test]
fn missing_attribute_names() {
    assert_eq!(missing_attribute_name(TILE_SIZE_X), "texture_atlas/tile_size_x");
    assert_eq!(missing_attribute_name(TILE_SIZE_Y), "texture_atlas/tile_size_y");
    assert_eq!(missing_attribute_name(COLUMNS), "texture_atlas/columns");
    assert_eq!(missing_attribute_name(ROWS), "texture_atlas/rows");
}

#[test]
fn complete_atlas_from_a_folder_path() {
    let mut builder = atlas_builder();
    builder.asset_path = None;
    builder.folder_path = Some("some/sheets".to_owned());
    assert_eq!(
        builder.build(),
        Ok(AssetField::TextureAtlas(TextureAtlasAssetField {
            field_ident: Ident::new("test", Span::call_site()),
            asset_path: "some/sheets".to_owned(),
            tile_size_x: float(100.0),
            tile_size_y: float(50.0),
            columns: 10,
            rows: 5,
            padding_x: float(0.0),
            padding_y: float(0.0)
        }))
    );
}
