use nusamai::gltf::to_gltf_class;
use nusamai::gltf::to_gltf_property_table;
use nusamai::gltf::to_gltf_schema;
use nusamai::gltf::Attribute;
use nusamai::gltf::ClassPropertyComponentType;
use nusamai::gltf::ClassPropertyType;
use nusamai::gltf::FeatureTypeDef;
use nusamai::gltf::TypeDef;
use nusamai::gltf::TypeRef;

#[test]
fn test_to_gltf_schema() {
    let type_ref = TypeRef::String;
    let gltf_property_type = to_gltf_schema(&type_ref);
    assert_eq!(gltf_property_type.class_property_type, ClassPropertyType::String);

    let type_ref = TypeRef::Integer;
    let gltf_property_type = to_gltf_schema(&type_ref);
    assert_eq!(gltf_property_type.class_property_type, ClassPropertyType::Scalar);
    assert_eq!(
        gltf_property_type.component_type,
        Some(ClassPropertyComponentType::Int32)
    );

    let type_ref = TypeRef::Double;
    let gltf_property_type = to_gltf_schema(&type_ref);
    assert_eq!(gltf_property_type.class_property_type, ClassPropertyType::Scalar);
    assert_eq!(
        gltf_property_type.component_type,
        Some(ClassPropertyComponentType::Float64)
    );

    let type_ref = TypeRef::Boolean;
    let gltf_property_type = to_gltf_schema(&type_ref);
    assert_eq!(gltf_property_type.class_property_type, ClassPropertyType::Boolean);

    let type_ref = TypeRef::Measure;
    let gltf_property_type = to_gltf_schema(&type_ref);
    assert_eq!(gltf_property_type.class_property_type, ClassPropertyType::Scalar);
    assert_eq!(
        gltf_property_type.component_type,
        Some(ClassPropertyComponentType::Int32)
    );
}

#[test]
fn test_to_gltf_classes() {
    let class_name = "Building".to_string();
    let attribute = TypeRef::String;
    let mut attributes: Vec<(String, Attribute)> = Vec::new();

    attributes.push((
        class_name.clone(),
        Attribute { type_ref: attribute, ..Default::default() },
    ));

    let feature_type_def = TypeDef::Feature(FeatureTypeDef { attributes });

    let classes = to_gltf_class(&class_name, &feature_type_def);
    assert_eq!(classes.len(), 1);
}

#[test]
fn test_to_gltf_property_tables() {
    let class_name = "Building".to_string();
    let attribute = TypeRef::String;
    let mut attributes: Vec<(String, Attribute)> = Vec::new();

    attributes.push((
        class_name.clone(),
        Attribute { type_ref: attribute, ..Default::default() },
    ));

    let feature_type_def = TypeDef::Feature(FeatureTypeDef { attributes });

    let property_tables = to_gltf_property_table(&class_name, &feature_type_def, 0, 1);
    assert_eq!(property_tables.0.properties.len(), 1);
    // The single string column claims two buffer views: values and offsets.
    assert_eq!(property_tables.0.properties[0].1.values, 0);
    assert_eq!(property_tables.0.properties[0].1.string_offsets, Some(1));
    assert_eq!(property_tables.1, 2);
}
