use vstd::prelude::*;

verus! {

/// How a document namespace resolved: to a namespace name, to no
/// namespace, or to an unknown prefix.
#[derive(Debug, Clone, PartialEq, Eq)]
pub enum NsResolution {
    Bound(String),
    Unbound,
    Unknown(String),
}

/// The well-known prefix of a namespace name.  Every version-2 CityGML
/// module, the version 1 to 3 i-UR namespaces, GML 3.1, xAL and xlink map
/// to their usual prefixes; any other bound namespace is unsupported.
/// The lookup goes by the full namespace name.
pub open spec fn spec_prefix_of(s: Seq<char>) -> Seq<char> {
    if s == "http://www.opengis.net/gml"@ {
        "gml:"@
    } else if s == "http://www.opengis.net/citygml/2.0"@ {
        "core:"@
    } else if s == "http://www.opengis.net/citygml/appearance/2.0"@ {
        "app:"@
    } else if s == "http://www.opengis.net/citygml/building/2.0"@ {
        "bldg:"@
    } else if s == "http://www.opengis.net/citygml/bridge/2.0"@ {
        "brid:"@
    } else if s == "http://www.opengis.net/citygml/relief/2.0"@ {
        "dem:"@
    } else if s == "http://www.opengis.net/citygml/cityfurniture/2.0"@ {
        "frn:"@
    } else if s == "http://www.opengis.net/citygml/generics/2.0"@ {
        "gen:"@
    } else if s == "http://www.opengis.net/citygml/cityobjectgroup/2.0"@ {
        "grp:"@
    } else if s == "http://www.opengis.net/citygml/landuse/2.0"@ {
        "luse:"@
    } else if s == "http://www.opengis.net/citygml/transportation/2.0"@ {
        "tran:"@
    } else if s == "http://www.opengis.net/citygml/texturedsurface/2.0"@ {
        "tex:"@
    } else if s == "http://www.opengis.net/citygml/vegetation/2.0"@ {
        "veg:"@
    } else if s == "http://www.opengis.net/citygml/waterbody/2.0"@ {
        "wtr:"@
    } else if s == "http://www.opengis.net/citygml/tunnel/2.0"@ {
        "tun:"@
    } else if s == "https://www.geospatial.jp/iur/uro/3.0"@ {
        "uro:"@
    } else if s == "https://www.geospatial.jp/iur/urf/3.0"@ {
        "urf:"@
    } else if s == "https://www.geospatial.jp/iur/uro/2.0"@ {
        "uro:"@
    } else if s == "https://www.geospatial.jp/iur/urf/2.0"@ {
        "urf:"@
    } else if s == "https://www.chisou.go.jp/tiiki/toshisaisei/itoshisaisei/iur/uro/1.5"@ {
        "uro:"@
    } else if s == "https://www.chisou.go.jp/tiiki/toshisaisei/itoshisaisei/iur/urf/1.5"@ {
        "urf:"@
    } else if s == "http://www.kantei.go.jp/jp/singi/tiiki/toshisaisei/itoshisaisei/iur/uro/1.4"@ {
        "uro:"@
    } else if s == "http://www.kantei.go.jp/jp/singi/tiiki/toshisaisei/itoshisaisei/iur/urf/1.4"@ {
        "urf:"@
    } else if s == "urn:oasis:names:tc:ciq:xsdschema:xAL:2.0"@ {
        "xAL:"@
    } else if s == "http://www.w3.org/1999/xlink"@ {
        "xlink:"@
    } else {
        "unsupported:"@
    }
}

pub open spec fn spec_wellknown_prefix(ns: NsResolution) -> Seq<char> {
    match ns {
        NsResolution::Bound(name) => spec_prefix_of(name@),
        NsResolution::Unbound => ""@,
        NsResolution::Unknown(_) => "unknown:"@,
    }
}

fn str_eq(a: &String, b: &str) -> (r: bool)
    ensures
        r == (a@ == b@),
{
    let bs: String = b.to_string();
    *a == bs
}

/// Normalize a resolved namespace to its well-known prefix, for example
/// the version-2 CityGML core namespace to `core:`.
pub fn wellknown_prefix_from_nsres(ns: &NsResolution) -> (r: String)
    ensures
        r@ == spec_wellknown_prefix(*ns),
{
    match ns {
        NsResolution::Unbound => "".to_string(),
        NsResolution::Unknown(_) => "unknown:".to_string(),
        NsResolution::Bound(name) => {
            if str_eq(name, "http://www.opengis.net/gml") {
                "gml:".to_string()
            } else if str_eq(name, "http://www.opengis.net/citygml/2.0") {
                "core:".to_string()
            } else if str_eq(name, "http://www.opengis.net/citygml/appearance/2.0") {
                "app:".to_string()
            } else if str_eq(name, "http://www.opengis.net/citygml/building/2.0") {
                "bldg:".to_string()
            } else if str_eq(name, "http://www.opengis.net/citygml/bridge/2.0") {
                "brid:".to_string()
            } else if str_eq(name, "http://www.opengis.net/citygml/relief/2.0") {
                "dem:".to_string()
            } else if str_eq(name, "http://www.opengis.net/citygml/cityfurniture/2.0") {
                "frn:".to_string()
            } else if str_eq(name, "http://www.opengis.net/citygml/generics/2.0") {
                "gen:".to_string()
            } else if str_eq(name, "http://www.opengis.net/citygml/cityobjectgroup/2.0") {
                "grp:".to_string()
            } else if str_eq(name, "http://www.opengis.net/citygml/landuse/2.0") {
                "luse:".to_string()
            } else if str_eq(name, "http://www.opengis.net/citygml/transportation/2.0") {
                "tran:".to_string()
            } else if str_eq(name, "http://www.opengis.net/citygml/texturedsurface/2.0") {
                "tex:".to_string()
            } else if str_eq(name, "http://www.opengis.net/citygml/vegetation/2.0") {
                "veg:".to_string()
            } else if str_eq(name, "http://www.opengis.net/citygml/waterbody/2.0") {
                "wtr:".to_string()
            } else if str_eq(name, "http://www.opengis.net/citygml/tunnel/2.0") {
                "tun:".to_string()
            } else if str_eq(name, "https://www.geospatial.jp/iur/uro/3.0") {
                "uro:".to_string()
            } else if str_eq(name, "https://www.geospatial.jp/iur/urf/3.0") {
                "urf:".to_string()
            } else if str_eq(name, "https://www.geospatial.jp/iur/uro/2.0") {
                "uro:".to_string()
            } else if str_eq(name, "https://www.geospatial.jp/iur/urf/2.0") {
                "urf:".to_string()
            } else if str_eq(
                name,
                "https://www.chisou.go.jp/tiiki/toshisaisei/itoshisaisei/iur/uro/1.5",
            ) {
                "uro:".to_string()
            } else if str_eq(
                name,
                "https://www.chisou.go.jp/tiiki/toshisaisei/itoshisaisei/iur/urf/1.5",
            ) {
                "urf:".to_string()
            } else if str_eq(
                name,
                "http://www.kantei.go.jp/jp/singi/tiiki/toshisaisei/itoshisaisei/iur/uro/1.4",
            ) {
                "uro:".to_string()
            } else if str_eq(
                name,
                "http://www.kantei.go.jp/jp/singi/tiiki/toshisaisei/itoshisaisei/iur/urf/1.4",
            ) {
                "urf:".to_string()
            } else if str_eq(name, "urn:oasis:names:tc:ciq:xsdschema:xAL:2.0") {
                "xAL:".to_string()
            } else if str_eq(name, "http://www.w3.org/1999/xlink") {
                "xlink:".to_string()
            } else {
                "unsupported:".to_string()
            }
        },
    }
}

} // verus!
