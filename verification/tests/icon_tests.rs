use app_launcher::icon::{icon_data_uri, icon_resource_path};
use std::io::Cursor;

fn plist_with_icon(name: &str) -> Vec<u8> {
    let xml = format!(
        "<?xml version=\"1.0\" encoding=\"UTF-8\"?>\n\
         <!DOCTYPE plist PUBLIC \"-//Apple//DTD PLIST 1.0//EN\" \
         \"http://www.apple.com/DTDs/PropertyList-1.0.dtd\">\n\
         <plist version=\"1.0\"><dict>\
         <key>CFBundleIconFile</key><string>{}</string>\
         <key>CFBundleName</key><string>Demo</string>\
         </dict></plist>",
        name
    );
    xml.into_bytes()
}

fn plist_without_icon() -> Vec<u8> {
    let xml = "<?xml version=\"1.0\" encoding=\"UTF-8\"?>\n\
               <plist version=\"1.0\"><dict>\
               <key>CFBundleName</key><string>Demo</string>\
               </dict></plist>";
    xml.as_bytes().to_vec()
}

#[test]
fn missing_plist_gives_no_icon_path() {
    assert_eq!(icon_resource_path("/Applications/Foo.app", &None), None);
}

#[test]
fn icon_name_without_extension_gets_icns() {
    let r = icon_resource_path("/Applications/Foo.app", &Some(plist_with_icon("AppIcon")));
    assert_eq!(
        r,
        Some("/Applications/Foo.app/Contents/Resources/AppIcon.icns".to_string())
    );
}

#[test]
fn icon_name_with_extension_is_kept() {
    let r = icon_resource_path("/Applications/Foo.app", &Some(plist_with_icon("AppIcon.icns")));
    assert_eq!(
        r,
        Some("/Applications/Foo.app/Contents/Resources/AppIcon.icns".to_string())
    );
    let r = icon_resource_path("/Applications/Foo.app", &Some(plist_with_icon("icon.png")));
    assert_eq!(
        r,
        Some("/Applications/Foo.app/Contents/Resources/icon.png".to_string())
    );
}

#[test]
fn plist_without_icon_field_gives_nothing() {
    assert_eq!(icon_resource_path("/Applications/Foo.app", &Some(plist_without_icon())), None);
}

#[test]
fn malformed_plist_gives_nothing() {
    let garbage = b"not a plist at all".to_vec();
    assert_eq!(icon_resource_path("/Applications/Foo.app", &Some(garbage)), None);
}

#[test]
fn binary_plist_is_also_read() {
    let mut buf = Cursor::new(Vec::new());
    let mut dict = plist::Dictionary::new();
    dict.insert(
        "CFBundleIconFile".to_string(),
        plist::Value::String("AppIcon".to_string()),
    );
    plist::Value::Dictionary(dict).to_writer_binary(&mut buf).unwrap();
    let r = icon_resource_path("/Applications/Foo.app", &Some(buf.into_inner()));
    assert_eq!(
        r,
        Some("/Applications/Foo.app/Contents/Resources/AppIcon.icns".to_string())
    );
}

fn family_bytes(family: &icns::IconFamily) -> Vec<u8> {
    let mut buf = Vec::new();
    family.write(&mut buf).unwrap();
    buf
}

#[test]
fn container_with_only_large_variant_gives_nothing() {
    let mut family = icns::IconFamily::new();
    let image = icns::Image::new(icns::PixelFormat::RGBA, 512, 512);
    family.add_icon_with_type(&image, icns::IconType::RGBA32_512x512).unwrap();
    assert_eq!(icon_data_uri(&family_bytes(&family)), None);
}

#[test]
fn malformed_container_gives_nothing() {
    assert_eq!(icon_data_uri(&b"icns????".to_vec()), None);
    assert_eq!(icon_data_uri(&Vec::new()), None);
}

#[test]
fn plain_128_variant_is_encoded() {
    let mut family = icns::IconFamily::new();
    let image = icns::Image::new(icns::PixelFormat::RGBA, 128, 128);
    family.add_icon_with_type(&image, icns::IconType::RGBA32_128x128).unwrap();
    let uri = icon_data_uri(&family_bytes(&family)).expect("an icon should come back");

    // The same bytes the pipeline must have produced, computed directly.
    let extracted = family.get_icon_with_type(icns::IconType::RGBA32_128x128).unwrap();
    let mut png = Vec::new();
    extracted.write_png(&mut png).unwrap();
    let expected = format!(
        "data:image/png;base64,{}",
        base64::Engine::encode(&base64::engine::general_purpose::STANDARD, &png)
    );
    assert_eq!(uri, expected);
}

#[test]
fn retina_128_variant_is_preferred() {
    let mut family = icns::IconFamily::new();
    let small = icns::Image::new(icns::PixelFormat::RGBA, 128, 128);
    family.add_icon_with_type(&small, icns::IconType::RGBA32_128x128).unwrap();
    let big = icns::Image::new(icns::PixelFormat::RGBA, 256, 256);
    family.add_icon_with_type(&big, icns::IconType::RGBA32_128x128_2x).unwrap();

    let uri = icon_data_uri(&family_bytes(&family)).expect("an icon should come back");
    let b64 = uri.strip_prefix("data:image/png;base64,").expect("the data URI prefix");
    let png = base64::Engine::decode(&base64::engine::general_purpose::STANDARD, b64).unwrap();
    let image = icns::Image::read_png(Cursor::new(png)).unwrap();
    // The retina variant's pixel size, not the plain one's.
    assert_eq!(image.width(), 256);
    assert_eq!(image.height(), 256);
}

#[test]
fn retina_32_variant_is_last_resort() {
    let mut family = icns::IconFamily::new();
    let image = icns::Image::new(icns::PixelFormat::RGBA, 64, 64);
    family.add_icon_with_type(&image, icns::IconType::RGBA32_32x32_2x).unwrap();
    let uri = icon_data_uri(&family_bytes(&family)).expect("an icon should come back");
    assert!(uri.starts_with("data:image/png;base64,"));
}
