use nusamai::namespace::wellknown_prefix_from_nsres;
use nusamai::namespace::NsResolution;
use quick_xml::events::Event;
use quick_xml::name::ResolveResult;
use quick_xml::NsReader;

fn to_resolution(ns: &ResolveResult) -> NsResolution {
    match ns {
        ResolveResult::Bound(name) => NsResolution::Bound(name.as_ref().to_string()),
        ResolveResult::Unbound => NsResolution::Unbound,
        ResolveResult::Unknown(prefix) => NsResolution::Unknown(prefix.clone()),
    }
}

#[test]
fn normalized_prefix() {
    let data = r#"
    <?xml version="1.0" encoding="UTF-8"?>
    <core2ns:core
        xmlns:gml31ns="http://www.opengis.net/gml"
        xmlns:core2ns="http://www.opengis.net/citygml/2.0"
        xmlns:grp2ns="http://www.opengis.net/citygml/cityobjectgroup/2.0"
        xmlns:bldg2ns="http://www.opengis.net/citygml/building/2.0"
        xmlns:brid2ns="http://www.opengis.net/citygml/bridge/2.0"
        xmlns:tran2ns="http://www.opengis.net/citygml/transportation/2.0"
        xmlns:frn2ns="http://www.opengis.net/citygml/cityfurniture/2.0"
        xmlns:wtr2ns="http://www.opengis.net/citygml/waterbody/2.0"
        xmlns:veg2ns="http://www.opengis.net/citygml/vegetation/2.0"
        xmlns:tun2ns="http://www.opengis.net/citygml/tunnel/2.0"
        xmlns:tex2ns="http://www.opengis.net/citygml/texturedsurface/2.0"
        xmlns:app2ns="http://www.opengis.net/citygml/appearance/2.0"
        xmlns:gen2ns="http://www.opengis.net/citygml/generics/2.0"
        xmlns:dem2ns="http://www.opengis.net/citygml/relief/2.0"
        xmlns:luse2ns="http://www.opengis.net/citygml/landuse/2.0"
        xmlns:uro3ns="https://www.geospatial.jp/iur/uro/3.0"
        xmlns:urf3ns="https://www.geospatial.jp/iur/urf/3.0"
        xmlns:uro2ns="https://www.geospatial.jp/iur/uro/2.0"
        xmlns:urf2ns="https://www.geospatial.jp/iur/urf/3.0"
        xmlns:uro15ns="https://www.chisou.go.jp/tiiki/toshisaisei/itoshisaisei/iur/uro/1.5"
        xmlns:urf15ns="https://www.chisou.go.jp/tiiki/toshisaisei/itoshisaisei/iur/urf/1.5"
        xmlns:xAL2ns="urn:oasis:names:tc:ciq:xsdschema:xAL:2.0"
        xmlns:xlinkns="http://www.w3.org/1999/xlink"
    >
        <!-- namespace_prefix:wellknown_prefix -->
        <foobar:unknown />
        <gml31ns:gml />
        <core2ns:core />
        <grp2ns:grp />
        <bldg2ns:bldg />
        <brid2ns:brid />
        <tran2ns:tran />
        <frn2ns:frn />
        <wtr2ns:wtr />
        <veg2ns:veg />
        <tun2ns:tun />
        <tex2ns:tex />
        <app2ns:app />
        <gen2ns:gen />
        <dem2ns:dem />
        <luse2ns:luse />
        <uro3ns:uro />
        <urf3ns:urf />
        <uro2ns:uro />
        <urf2ns:urf />
        <uro15ns:uro />
        <urf15ns:urf />
        <xAL2ns:xAL />
    </core2ns:core>
    "#;

    let mut reader = NsReader::from_str(data);
    reader.config_mut().trim_text(true);
    reader.config_mut().expand_empty_elements = true;
    loop {
        match reader.read_resolved_event() {
            Ok((ns, Event::Start(ref e))) => {
                let resolution = to_resolution(&ns);
                let wellknown = wellknown_prefix_from_nsres(&resolution);
                let localname = e.local_name();
                let expected = format!("{}:", localname.as_ref());
                assert_eq!(wellknown, expected);
            }
            Ok((_, Event::Eof)) => break,
            Ok(_) => {}
            Err(e) => panic!("{:?}", e),
        }
    }
}
