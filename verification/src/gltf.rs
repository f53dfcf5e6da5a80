use vstd::prelude::*;

verus! {

/// An attribute type of the feature schema.
#[derive(Debug, Clone, PartialEq, Eq)]
pub enum TypeRef {
    Unknown,
    String,
    Integer,
    Double,
    Boolean,
    Measure,
    Code,
    NonNegativeInteger,
    JsonString,
    Point,
    Named(String),
    Date,
    URI,
}

/// One attribute of a feature type definition.
#[derive(Debug, Clone, PartialEq, Eq)]
pub struct Attribute {
    pub type_ref: TypeRef,
    pub min_occurs: u32,
    pub max_occurs: Option<u32>,
}

impl Default for Attribute {
    fn default() -> (r: Attribute)
        ensures
            r.type_ref == TypeRef::Unknown,
            r.min_occurs == 1,
            r.max_occurs is None,
    {
        Attribute { type_ref: TypeRef::Unknown, min_occurs: 1, max_occurs: None }
    }
}

/// A feature type of the schema: its attributes, in declaration order.
#[derive(Debug, Clone, PartialEq, Eq)]
pub struct FeatureTypeDef {
    pub attributes: Vec<(String, Attribute)>,
}

impl Default for FeatureTypeDef {
    fn default() -> (r: FeatureTypeDef)
        ensures
            r.attributes@.len() == 0,
    {
        FeatureTypeDef { attributes: Vec::new() }
    }
}

/// A type of the schema.  Only feature types carry per-feature metadata;
/// the structural-metadata conversion covers them alone.
#[derive(Debug, Clone, PartialEq, Eq)]
pub enum TypeDef {
    Feature(FeatureTypeDef),
    Data,
    Property,
}

/// The structural-metadata class property types used by the conversion.
#[derive(Debug, Clone, Copy, PartialEq, Eq, Structural)]
pub enum ClassPropertyType {
    String,
    Scalar,
    Boolean,
    Vec3,
}

#[derive(Debug, Clone, Copy, PartialEq, Eq, Structural)]
pub enum ClassPropertyComponentType {
    Int32,
    Float64,
}

/// One schema attribute mapped to its structural-metadata property shape.
#[derive(Debug, Clone, PartialEq, Eq)]
pub struct GltfPropertyType {
    pub property_name: String,
    pub class_property_type: ClassPropertyType,
    pub component_type: Option<ClassPropertyComponentType>,
}

/// A class property of the structural-metadata extension.
#[derive(Debug, Clone, PartialEq, Eq)]
pub struct ClassProperty {
    pub description: Option<String>,
    pub property_type: ClassPropertyType,
    pub component_type: Option<ClassPropertyComponentType>,
}

/// A metadata class: its properties keyed by property name.
#[derive(Debug, Clone, PartialEq, Eq)]
pub struct GltfClass {
    pub name: Option<String>,
    pub description: Option<String>,
    pub properties: Vec<(String, ClassProperty)>,
}

/// One column of a property table: buffer-view indices for the values
/// and, for string-typed properties, their offsets.
#[derive(Debug, Clone, PartialEq, Eq)]
pub struct PropertyTableProperty {
    pub values: u32,
    pub string_offsets: Option<u32>,
}

/// A property table of the structural-metadata extension.
#[derive(Debug, Clone, PartialEq, Eq)]
pub struct PropertyTable {
    pub class: String,
    pub properties: Vec<(String, PropertyTableProperty)>,
    pub count: u32,
}

/// The class property type that a schema attribute type maps to: numbers
/// become scalars, booleans stay booleans, points become 3-vectors, and
/// everything else is carried as a string.
pub open spec fn spec_class_property_type(t: TypeRef) -> ClassPropertyType {
    match t {
        TypeRef::Integer => ClassPropertyType::Scalar,
        TypeRef::Double => ClassPropertyType::Scalar,
        TypeRef::Measure => ClassPropertyType::Scalar,
        TypeRef::NonNegativeInteger => ClassPropertyType::Scalar,
        TypeRef::Boolean => ClassPropertyType::Boolean,
        TypeRef::Point => ClassPropertyType::Vec3,
        _ => ClassPropertyType::String,
    }
}

pub open spec fn spec_component_type(t: TypeRef) -> Option<ClassPropertyComponentType> {
    match t {
        TypeRef::Integer => Some(ClassPropertyComponentType::Int32),
        TypeRef::Double => Some(ClassPropertyComponentType::Float64),
        TypeRef::Measure => Some(ClassPropertyComponentType::Int32),
        TypeRef::NonNegativeInteger => Some(ClassPropertyComponentType::Int32),
        TypeRef::Point => Some(ClassPropertyComponentType::Float64),
        _ => None,
    }
}

/// Map one schema attribute type to its structural-metadata property
/// shape; the property name is filled in by the caller.
pub fn to_gltf_schema(type_ref: &TypeRef) -> (r: GltfPropertyType)
    ensures
        r.property_name@.len() == 0,
        r.class_property_type == spec_class_property_type(*type_ref),
        r.component_type == spec_component_type(*type_ref),
{
    let class_property_type = match type_ref {
        TypeRef::Integer => ClassPropertyType::Scalar,
        TypeRef::Double => ClassPropertyType::Scalar,
        TypeRef::Measure => ClassPropertyType::Scalar,
        TypeRef::NonNegativeInteger => ClassPropertyType::Scalar,
        TypeRef::Boolean => ClassPropertyType::Boolean,
        TypeRef::Point => ClassPropertyType::Vec3,
        _ => ClassPropertyType::String,
    };
    let component_type = match type_ref {
        TypeRef::Integer => Some(ClassPropertyComponentType::Int32),
        TypeRef::Double => Some(ClassPropertyComponentType::Float64),
        TypeRef::Measure => Some(ClassPropertyComponentType::Int32),
        TypeRef::NonNegativeInteger => Some(ClassPropertyComponentType::Int32),
        TypeRef::Point => Some(ClassPropertyComponentType::Float64),
        _ => None,
    };
    GltfPropertyType { property_name: String::new(), class_property_type, component_type }
}

fn copy_string(s: &String) -> (r: String)
    ensures
        r@ == s@,
{
    s.clone()
}

/// Convert one feature type of the schema to its metadata class: one
/// class under the feature type's name, with one property per attribute,
/// described by the attribute's own name.
pub fn to_gltf_class(class_name: &String, type_def: &TypeDef) -> (r: Vec<(String, GltfClass)>)
    requires
        type_def is Feature,
    ensures
        r@.len() == 1,
        r@[0].0@ == class_name@,
        r@[0].1.name matches Some(n) && n@ == class_name@,
        r@[0].1.description is None,
        ({
            let attrs = type_def->Feature_0.attributes@;
            let props = r@[0].1.properties@;
            &&& props.len() == attrs.len()
            &&& forall|i: int|
                0 <= i < attrs.len() ==> {
                    let (name, attr) = #[trigger] attrs[i];
                    &&& props[i].0@ == name@
                    &&& props[i].1.description matches Some(d) && d@ == name@
                    &&& props[i].1.property_type == spec_class_property_type(attr.type_ref)
                    &&& props[i].1.component_type == spec_component_type(attr.type_ref)
                }
        }),
{
    let f = match type_def {
        TypeDef::Feature(f) => f,
        _ => {
            proof {
                assert(false);
            }
            unreached()
        },
    };
    let ghost attrs = f.attributes@;
    let n = f.attributes.len();
    let mut class_properties: Vec<(String, ClassProperty)> = Vec::new();
    let mut i: usize = 0;
    while i < n
        invariant
            i <= n,
            n == attrs.len(),
            attrs == f.attributes@,
            class_properties@.len() == i,
            forall|k: int|
                0 <= k < i ==> {
                    let (name, attr) = #[trigger] attrs[k];
                    &&& class_properties@[k].0@ == name@
                    &&& class_properties@[k].1.description matches Some(d) && d@ == name@
                    &&& class_properties@[k].1.property_type == spec_class_property_type(
                        attr.type_ref,
                    )
                    &&& class_properties@[k].1.component_type == spec_component_type(attr.type_ref)
                },
        decreases n - i,
    {
        let entry = &f.attributes[i];
        let property_type = to_gltf_schema(&entry.1.type_ref);
        let prop = ClassProperty {
            description: Some(copy_string(&entry.0)),
            property_type: property_type.class_property_type,
            component_type: property_type.component_type,
        };
        class_properties.push((copy_string(&entry.0), prop));
        i = i + 1;
    }
    let class = GltfClass {
        name: Some(copy_string(class_name)),
        description: None,
        properties: class_properties,
    };
    let mut out: Vec<(String, GltfClass)> = Vec::new();
    out.push((copy_string(class_name), class));
    out
}

/// How many buffer views one attribute's column consumes: strings carry
/// a value view and an offset view, scalars and booleans one view.
pub open spec fn spec_view_cost(t: TypeRef) -> int {
    if spec_class_property_type(t) is String {
        2
    } else {
        1
    }
}

/// The running buffer-view index after laying out the first `n`
/// attribute columns.
pub open spec fn spec_bvl_after(attrs: Seq<(String, Attribute)>, n: nat, bvl: int) -> int
    decreases n,
{
    if n == 0 {
        bvl
    } else {
        spec_bvl_after(attrs, (n - 1) as nat, bvl) + spec_view_cost(attrs[n - 1].1.type_ref)
    }
}

/// Convert one feature type to its property table, laying the columns
/// out in consecutive buffer views starting at `buffer_view_length`:
/// every attribute becomes one column, string columns also claim the
/// following view for their offsets.  Returns the table and the next
/// free buffer-view index.  Point-typed attributes have no column
/// layout here and are excluded by precondition.
pub fn to_gltf_property_table(
    class_name: &String,
    schema: &TypeDef,
    buffer_view_length: u32,
    feature_count: u32,
) -> (r: (PropertyTable, u32))
    requires
        schema is Feature,
        buffer_view_length + 2 * schema->Feature_0.attributes@.len() <= u32::MAX,
        forall|i: int|
            0 <= i < schema->Feature_0.attributes@.len() ==> !(spec_class_property_type(
                (#[trigger] schema->Feature_0.attributes@[i]).1.type_ref,
            ) is Vec3),
    ensures
        r.0.class@ == class_name@,
        r.0.count == feature_count,
        ({
            let attrs = schema->Feature_0.attributes@;
            let props = r.0.properties@;
            &&& r.1 == spec_bvl_after(attrs, attrs.len(), buffer_view_length as int)
            &&& props.len() == attrs.len()
            &&& forall|i: int|
                0 <= i < attrs.len() ==> {
                    let (name, attr) = #[trigger] attrs[i];
                    &&& props[i].0@ == name@
                    &&& props[i].1.values == spec_bvl_after(attrs, i as nat, buffer_view_length as int)
                    &&& (spec_class_property_type(attr.type_ref) is String ==> props[i].1.string_offsets
                        == Some((spec_bvl_after(attrs, i as nat, buffer_view_length as int) + 1) as u32))
                    &&& (!(spec_class_property_type(attr.type_ref) is String)
                        ==> props[i].1.string_offsets is None)
                }
        }),
{
    let f = match schema {
        TypeDef::Feature(f) => f,
        _ => {
            proof {
                assert(false);
            }
            unreached()
        },
    };
    let ghost attrs = f.attributes@;
    let n = f.attributes.len();
    let mut properties: Vec<(String, PropertyTableProperty)> = Vec::new();
    let mut bvl: u32 = buffer_view_length;
    let mut i: usize = 0;
    proof {
        lemma_bvl_bound(attrs, 0, buffer_view_length as int);
    }
    while i < n
        invariant
            i <= n,
            n == attrs.len(),
            attrs == f.attributes@,
            buffer_view_length + 2 * attrs.len() <= u32::MAX,
            forall|k: int|
                0 <= k < attrs.len() ==> !(spec_class_property_type(
                    (#[trigger] attrs[k]).1.type_ref,
                ) is Vec3),
            bvl as int == spec_bvl_after(attrs, i as nat, buffer_view_length as int),
            properties@.len() == i,
            forall|k: int|
                0 <= k < i ==> {
                    let (name, attr) = #[trigger] attrs[k];
                    &&& properties@[k].0@ == name@
                    &&& properties@[k].1.values == spec_bvl_after(
                        attrs,
                        k as nat,
                        buffer_view_length as int,
                    )
                    &&& (spec_class_property_type(attr.type_ref) is String
                        ==> properties@[k].1.string_offsets == Some(
                        (spec_bvl_after(attrs, k as nat, buffer_view_length as int) + 1) as u32,
                    ))
                    &&& (!(spec_class_property_type(attr.type_ref) is String)
                        ==> properties@[k].1.string_offsets is None)
                },
        decreases n - i,
    {
        proof {
            lemma_bvl_bound(attrs, (i + 1) as nat, buffer_view_length as int);
            lemma_bvl_bound(attrs, i as nat, buffer_view_length as int);
        }
        let entry = &f.attributes[i];
        let property_type = to_gltf_schema(&entry.1.type_ref);
        match property_type.class_property_type {
            ClassPropertyType::String => {
                properties.push((
                    copy_string(&entry.0),
                    PropertyTableProperty { values: bvl, string_offsets: Some(bvl + 1) },
                ));
                bvl = bvl + 2;
            },
            ClassPropertyType::Scalar => {
                properties.push((
                    copy_string(&entry.0),
                    PropertyTableProperty { values: bvl, string_offsets: None },
                ));
                bvl = bvl + 1;
            },
            ClassPropertyType::Boolean => {
                properties.push((
                    copy_string(&entry.0),
                    PropertyTableProperty { values: bvl, string_offsets: None },
                ));
                bvl = bvl + 1;
            },
            ClassPropertyType::Vec3 => {
                proof {
                    assert(false);
                }
            },
        }
        i = i + 1;
    }
    let table = PropertyTable {
        class: copy_string(class_name),
        properties,
        count: feature_count,
    };
    (table, bvl)
}

/// The running buffer-view index grows by at most two per column.
proof fn lemma_bvl_bound(attrs: Seq<(String, Attribute)>, n: nat, bvl: int)
    requires
        n <= attrs.len(),
    ensures
        bvl <= spec_bvl_after(attrs, n, bvl) <= bvl + 2 * n,
    decreases n,
{
    if n > 0 {
        lemma_bvl_bound(attrs, (n - 1) as nat, bvl);
    }
}

} // verus!
