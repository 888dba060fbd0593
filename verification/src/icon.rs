//! Extracting a bundle's icon.  The caller reads `Contents/Info.plist` and
//! hands its bytes over; the library finds the icon file's name in it and
//! says which resource file to read.  The caller then hands those bytes
//! back, and the library picks the best of three preferred variants from
//! the icon-family container, re-encodes it as PNG, and wraps it as a
//! base64 `data:` URI.  Every failure on the way collapses to "no icon".

use vstd::prelude::*;
use vstd::string::*;
use crate::paths::{spec_path_join, path_join, spec_has_extension, has_extension};

verus! {

// ---------------------------------------------------------------------------
// Reading the icon file's name from the property list
// ---------------------------------------------------------------------------

/// What the property-list decoder yields for the string field `key` of the
/// plist serialized in `bytes`: nothing when the bytes do not decode or the
/// field is missing or not a string.
pub uninterp spec fn plist_str_field_of(bytes: Seq<u8>, key: Seq<char>) -> Option<Seq<char>>;

/// Relies on `plist::from_bytes` (decoding into a `serde_json::Value`) and
/// on `serde_json`'s `Value::get` and `Value::as_str`: the field's value is
/// a pure function of the bytes and the key.
#[verifier::external_body]
fn plist_string_field(bytes: &[u8], key: &str) -> (r: Option<String>)
    ensures
        r.deep_view() == plist_str_field_of(bytes@, key@),
{
    let value: serde_json::Value = match plist::from_bytes(bytes) {
        Ok(v) => v,
        Err(_) => return None,
    };
    match value.get(key) {
        Some(v) => v.as_str().map(|s| s.to_string()),
        None => None,
    }
}

/// The resource path the icon pipeline reads for a bundle, given the bytes
/// of its `Contents/Info.plist`: the file named by `CFBundleIconFile` under
/// `Contents/Resources`, with `.icns` appended when the name has no
/// extension; nothing when the plist is missing, undecodable, or lacks the
/// field.
pub open spec fn spec_icon_resource_path(bundle: Seq<char>, plist: Option<Seq<u8>>) -> Option<
    Seq<char>,
> {
    match plist {
        None => None,
        Some(bytes) => match plist_str_field_of(bytes, "CFBundleIconFile"@) {
            None => None,
            Some(name) => {
                let joined = spec_path_join(spec_path_join(bundle, "Contents/Resources"@), name);
                if spec_has_extension(name) {
                    Some(joined)
                } else {
                    Some(joined + ".icns"@)
                }
            },
        },
    }
}

/// Finds the icon resource file of a bundle from the bytes of its
/// `Contents/Info.plist`, or nothing when the plist was unreadable or holds
/// no icon file name.
pub fn icon_resource_path(bundle: &str, plist: &Option<Vec<u8>>) -> (r: Option<String>)
    ensures
        r.deep_view() == spec_icon_resource_path(bundle@, plist.deep_view()),
{
    let bytes = match plist {
        None => {
            return None;
        },
        Some(b) => b,
    };
    proof {
        assert(bytes.deep_view() =~= bytes@);
    }
    let name = match plist_string_field(bytes.as_slice(), "CFBundleIconFile") {
        None => {
            return None;
        },
        Some(n) => n,
    };
    let resources = path_join(bundle, "Contents/Resources");
    let mut joined = path_join(resources.as_str(), name.as_str());
    if !has_extension(name.as_str()) {
        joined.append(".icns");
    }
    Some(joined)
}

// ---------------------------------------------------------------------------
// Decoding the icon family and picking a variant
// ---------------------------------------------------------------------------

#[verifier::external_type_specification]
#[verifier::external_body]
pub struct ExIconFamily(icns::IconFamily);

/// The three variants the pipeline will use, in order of preference.
pub enum IconKind {
    Rgba128Retina,
    Rgba128,
    Rgba32Retina,
}

/// The preference rank of a variant: the pipeline tries rank 0 first.
pub open spec fn kind_index(k: IconKind) -> int {
    match k {
        IconKind::Rgba128Retina => 0,
        IconKind::Rgba128 => 1,
        IconKind::Rgba32Retina => 2,
    }
}

/// What an icon family holds, as far as the pipeline reads it: for each
/// preference rank whose variant the container can extract, the PNG
/// encoding of that variant's image.
pub uninterp spec fn family_pngs(f: icns::IconFamily) -> Map<int, Seq<u8>>;

/// `family_pngs` of the family that a byte string decodes to; nothing when
/// the bytes are not a well-formed container.
pub uninterp spec fn icns_pngs_of(bytes: Seq<u8>) -> Option<Map<int, Seq<u8>>>;

/// Relies on `icns::IconFamily::read`: decoding an icon-family container is
/// a pure function of the bytes.
#[verifier::external_body]
fn read_icon_family(bytes: &[u8]) -> (r: Option<icns::IconFamily>)
    ensures
        match r {
            Some(f) => icns_pngs_of(bytes@) == Some(family_pngs(f)),
            None => icns_pngs_of(bytes@) is None,
        },
{
    icns::IconFamily::read(bytes).ok()
}

/// Relies on `icns::IconFamily::get_icon_with_type` and
/// `icns::Image::write_png`: extracting a variant and encoding it as PNG
/// are pure functions of the container's contents and the variant asked
/// for.
#[verifier::external_body]
fn icon_png(family: &icns::IconFamily, kind: IconKind) -> (r: Option<Vec<u8>>)
    ensures
        match r {
            Some(png) => family_pngs(*family).contains_key(kind_index(kind)) && png@
                == family_pngs(*family)[kind_index(kind)],
            None => !family_pngs(*family).contains_key(kind_index(kind)),
        },
{
    let icon_type = match kind {
        IconKind::Rgba128Retina => icns::IconType::RGBA32_128x128_2x,
        IconKind::Rgba128 => icns::IconType::RGBA32_128x128,
        IconKind::Rgba32Retina => icns::IconType::RGBA32_32x32_2x,
    };
    let image = match family.get_icon_with_type(icon_type) {
        Ok(image) => image,
        Err(_) => return None,
    };
    let mut buffer = Vec::new();
    match image.write_png(&mut buffer) {
        Ok(()) => Some(buffer),
        Err(_) => None,
    }
}

// ---------------------------------------------------------------------------
// Base64 and the data URI
// ---------------------------------------------------------------------------

/// What the standard padded base64 alphabet encodes a byte string to.
pub uninterp spec fn base64_of(b: Seq<u8>) -> Seq<char>;

/// Relies on `base64`'s standard engine (`general_purpose::STANDARD`,
/// padded): the encoding is a pure function of the bytes.
#[verifier::external_body]
fn base64_encode(bytes: &[u8]) -> (r: String)
    ensures
        r@ == base64_of(bytes@),
{
    base64::Engine::encode(&base64::engine::general_purpose::STANDARD, bytes)
}

/// A PNG wrapped as a `data:` URI.
pub open spec fn spec_data_uri(png: Seq<u8>) -> Seq<char> {
    "data:image/png;base64,"@ + base64_of(png)
}

/// What the icon pipeline yields for the bytes of an icon resource file:
/// the data URI of the PNG of the most preferred variant present, nothing
/// when the container does not decode or holds none of the three.
pub open spec fn spec_icon_data_uri(bytes: Seq<u8>) -> Option<Seq<char>> {
    match icns_pngs_of(bytes) {
        None => None,
        Some(m) => if m.contains_key(0) {
            Some(spec_data_uri(m[0]))
        } else if m.contains_key(1) {
            Some(spec_data_uri(m[1]))
        } else if m.contains_key(2) {
            Some(spec_data_uri(m[2]))
        } else {
            None
        },
    }
}

/// Decodes an icon resource file and returns the preferred variant as a
/// base64 PNG data URI: the 128×128 retina variant if the container has
/// it, else 128×128, else 32×32 retina, else nothing.
pub fn icon_data_uri(bytes: &Vec<u8>) -> (r: Option<String>)
    ensures
        r.deep_view() == spec_icon_data_uri(bytes@),
{
    let family = match read_icon_family(bytes.as_slice()) {
        None => {
            return None;
        },
        Some(f) => f,
    };
    let png = if let Some(png) = icon_png(&family, IconKind::Rgba128Retina) {
        png
    } else if let Some(png) = icon_png(&family, IconKind::Rgba128) {
        png
    } else if let Some(png) = icon_png(&family, IconKind::Rgba32Retina) {
        png
    } else {
        return None;
    };
    let encoded = base64_encode(png.as_slice());
    let mut uri = String::from_str("data:image/png;base64,");
    uri.append(encoded.as_str());
    Some(uri)
}

} // verus!
