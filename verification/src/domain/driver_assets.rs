use vstd::prelude::*;

use crate::text::{
    append_text, ascii_lower, ascii_upper, chars_of, contains, has_substring, is_ascii_alpha,
    nat_digits, new_text, spec_to_lowercase, trimmed, text_eq, to_ascii_lowercase,
    to_ascii_uppercase, to_lowercase, trim, u64_text,
};

verus! {

/// The text a borrowed optional label holds.
pub open spec fn opt_text(o: Option<&str>) -> Option<Seq<char>> {
    match o {
        Some(t) => Some(t@),
        None => None,
    }
}

/// The text an owned optional label holds.
pub open spec fn opt_string(o: Option<String>) -> Option<Seq<char>> {
    match o {
        Some(t) => Some(t@),
        None => None,
    }
}

/// ISO 3166 alpha-2 code for an F1/IOC three-letter country code (already uppercased).
pub open spec fn f1_country_iso2(code: Seq<char>) -> Option<Seq<char>> {
    if code == "NED"@ || code == "NLD"@ || code == "NET"@ {
        Some("nl"@)
    } else if code == "GBR"@ || code == "ENG"@ || code == "UK"@ {
        Some("gb"@)
    } else if code == "MON"@ {
        Some("mc"@)
    } else if code == "GER"@ || code == "DEU"@ {
        Some("de"@)
    } else if code == "ESP"@ {
        Some("es"@)
    } else if code == "ITA"@ {
        Some("it"@)
    } else if code == "AUS"@ {
        Some("au"@)
    } else if code == "CAN"@ {
        Some("ca"@)
    } else if code == "JPN"@ {
        Some("jp"@)
    } else if code == "CHN"@ {
        Some("cn"@)
    } else if code == "USA"@ {
        Some("us"@)
    } else if code == "MEX"@ {
        Some("mx"@)
    } else if code == "BRA"@ {
        Some("br"@)
    } else if code == "AUT"@ {
        Some("at"@)
    } else if code == "CHE"@ {
        Some("ch"@)
    } else if code == "ARG"@ {
        Some("ar"@)
    } else if code == "DEN"@ {
        Some("dk"@)
    } else if code == "FIN"@ {
        Some("fi"@)
    } else if code == "FRA"@ {
        Some("fr"@)
    } else if code == "THA"@ {
        Some("th"@)
    } else if code == "POL"@ {
        Some("pl"@)
    } else if code == "NZL"@ {
        Some("nz"@)
    } else if code == "COL"@ {
        Some("co"@)
    } else if code == "POR"@ {
        Some("pt"@)
    } else if code == "ISR"@ {
        Some("il"@)
    } else if code == "UAE"@ {
        Some("ae"@)
    } else if code == "SAU"@ {
        Some("sa"@)
    } else if code == "HUN"@ {
        Some("hu"@)
    } else if code == "BEL"@ {
        Some("be"@)
    } else if code == "RSA"@ || code == "ZAF"@ {
        Some("za"@)
    } else if code == "INA"@ || code == "IDN"@ {
        Some("id"@)
    } else if code == "MAS"@ || code == "MYS"@ {
        Some("my"@)
    } else if code == "TPE"@ {
        Some("tw"@)
    } else if code == "VEN"@ {
        Some("ve"@)
    } else if code == "LBN"@ {
        Some("lb"@)
    } else if code == "LUX"@ {
        Some("lu"@)
    } else if code == "SMR"@ {
        Some("sm"@)
    } else if code == "AND"@ {
        Some("ad"@)
    } else if code == "LIE"@ {
        Some("li"@)
    } else {
        None
    }
}

/// Country of a driver by name acronym (already uppercased).
pub open spec fn acronym_iso2(code: Seq<char>) -> Option<Seq<char>> {
    if code == "VER"@ {
        Some("nl"@)
    } else if code == "NOR"@ || code == "HAM"@ || code == "RUS"@ || code == "BEA"@ || code == "LIN"@ {
        Some("gb"@)
    } else if code == "BOR"@ {
        Some("br"@)
    } else if code == "HAD"@ || code == "GAS"@ || code == "OCO"@ {
        Some("fr"@)
    } else if code == "PER"@ {
        Some("mx"@)
    } else if code == "ANT"@ {
        Some("it"@)
    } else if code == "ALO"@ || code == "SAI"@ {
        Some("es"@)
    } else if code == "LEC"@ {
        Some("mc"@)
    } else if code == "STR"@ {
        Some("ca"@)
    } else if code == "ALB"@ {
        Some("th"@)
    } else if code == "HUL"@ {
        Some("de"@)
    } else if code == "LAW"@ {
        Some("nz"@)
    } else if code == "COL"@ {
        Some("ar"@)
    } else if code == "BOT"@ {
        Some("fi"@)
    } else if code == "PIA"@ {
        Some("au"@)
    } else if code == "TSU"@ {
        Some("jp"@)
    } else if code == "DOO"@ {
        Some("au"@)
    } else {
        None
    }
}

/// Country of a driver by car number.
pub open spec fn number_iso2(n: i64) -> Option<Seq<char>> {
    if n == 1 {
        Some("gb"@)
    } else if n == 3 {
        Some("nl"@)
    } else if n == 5 {
        Some("br"@)
    } else if n == 6 {
        Some("fr"@)
    } else if n == 10 {
        Some("fr"@)
    } else if n == 11 {
        Some("mx"@)
    } else if n == 12 {
        Some("it"@)
    } else if n == 14 {
        Some("es"@)
    } else if n == 16 {
        Some("mc"@)
    } else if n == 18 {
        Some("ca"@)
    } else if n == 23 {
        Some("th"@)
    } else if n == 27 {
        Some("de"@)
    } else if n == 30 {
        Some("nz"@)
    } else if n == 31 {
        Some("fr"@)
    } else if n == 41 {
        Some("gb"@)
    } else if n == 43 {
        Some("ar"@)
    } else if n == 44 {
        Some("gb"@)
    } else if n == 55 {
        Some("es"@)
    } else if n == 63 {
        Some("gb"@)
    } else if n == 77 {
        Some("fi"@)
    } else if n == 81 {
        Some("au"@)
    } else if n == 87 {
        Some("gb"@)
    } else {
        None
    }
}

/// CDN slug of a constructor logo, from the lowercased team name.
pub open spec fn logo_slug(lower: Seq<char>) -> Option<Seq<char>> {
    if has_substring(lower, "racing bulls"@) || has_substring(lower, "visa cash app rb"@) {
        Some("rb"@)
    } else if has_substring(lower, "red bull"@) {
        Some("red%20bull"@)
    } else if has_substring(lower, "mclaren"@) {
        Some("mclaren"@)
    } else if has_substring(lower, "ferrari"@) {
        Some("ferrari"@)
    } else if has_substring(lower, "mercedes"@) {
        Some("mercedes"@)
    } else if has_substring(lower, "aston martin"@) {
        Some("aston%20martin"@)
    } else if has_substring(lower, "alpine"@) {
        Some("alpine"@)
    } else if has_substring(lower, "williams"@) {
        Some("williams"@)
    } else if has_substring(lower, "haas"@) {
        Some("haas"@)
    } else if has_substring(lower, "kick sauber"@) || has_substring(lower, "stake f1"@) || has_substring(lower, "alfa romeo"@) || has_substring(lower, "sauber"@) {
        Some("kick%20sauber"@)
    } else if has_substring(lower, "alphatauri"@) {
        Some("alphatauri"@)
    } else {
        None
    }
}

/// ISO code from a raw country code: two ASCII letters are taken as they are (lowercased),
/// anything else goes through the F1 table.
pub open spec fn country_iso2(raw: Seq<char>) -> Option<Seq<char>> {
    let code = trimmed(raw);
    if code.len() == 0 {
        None
    } else if code.len() == 2 && is_ascii_alpha(code[0]) && is_ascii_alpha(code[1]) {
        Some(ascii_lower(code))
    } else {
        f1_country_iso2(ascii_upper(trimmed(code)))
    }
}

/// Flag country of a driver: country code first, then name acronym, then car number.
pub open spec fn flag_iso2(country_code: Seq<char>, driver_number: i64, acronym: Seq<char>) -> Option<
    Seq<char>,
> {
    match country_iso2(country_code) {
        Some(c) => Some(c),
        None => match acronym_iso2(ascii_upper(trimmed(acronym))) {
            Some(c) => Some(c),
            None => number_iso2(driver_number),
        },
    }
}

pub open spec fn flag_url_text(iso2: Seq<char>) -> Seq<char> {
    "https://flagcdn.com/h24/"@ + ascii_lower(trimmed(iso2)) + ".png"@
}

pub open spec fn logo_url_text(slug: Seq<char>, width: u32, height: u32) -> Seq<char> {
    "https://media.formula1.com/image/upload/c_fit,w_"@ + nat_digits(width as nat) + ",h_"@
        + nat_digits(height as nat)
        + "/f_auto/q_auto/content/dam/fom-website/2018-redesign-assets/team%20logos/"@ + slug
}

fn f1_country_code_to_iso2(code: &str) -> (r: Option<&'static str>)
    ensures
        opt_text(r) == f1_country_iso2(ascii_upper(trimmed(code@))),
{
    let key = to_ascii_uppercase(trim(code));
    let k = key.as_str();
    if text_eq(k, "NED") || text_eq(k, "NLD") || text_eq(k, "NET") {
        Some("nl")
    } else if text_eq(k, "GBR") || text_eq(k, "ENG") || text_eq(k, "UK") {
        Some("gb")
    } else if text_eq(k, "MON") {
        Some("mc")
    } else if text_eq(k, "GER") || text_eq(k, "DEU") {
        Some("de")
    } else if text_eq(k, "ESP") {
        Some("es")
    } else if text_eq(k, "ITA") {
        Some("it")
    } else if text_eq(k, "AUS") {
        Some("au")
    } else if text_eq(k, "CAN") {
        Some("ca")
    } else if text_eq(k, "JPN") {
        Some("jp")
    } else if text_eq(k, "CHN") {
        Some("cn")
    } else if text_eq(k, "USA") {
        Some("us")
    } else if text_eq(k, "MEX") {
        Some("mx")
    } else if text_eq(k, "BRA") {
        Some("br")
    } else if text_eq(k, "AUT") {
        Some("at")
    } else if text_eq(k, "CHE") {
        Some("ch")
    } else if text_eq(k, "ARG") {
        Some("ar")
    } else if text_eq(k, "DEN") {
        Some("dk")
    } else if text_eq(k, "FIN") {
        Some("fi")
    } else if text_eq(k, "FRA") {
        Some("fr")
    } else if text_eq(k, "THA") {
        Some("th")
    } else if text_eq(k, "POL") {
        Some("pl")
    } else if text_eq(k, "NZL") {
        Some("nz")
    } else if text_eq(k, "COL") {
        Some("co")
    } else if text_eq(k, "POR") {
        Some("pt")
    } else if text_eq(k, "ISR") {
        Some("il")
    } else if text_eq(k, "UAE") {
        Some("ae")
    } else if text_eq(k, "SAU") {
        Some("sa")
    } else if text_eq(k, "HUN") {
        Some("hu")
    } else if text_eq(k, "BEL") {
        Some("be")
    } else if text_eq(k, "RSA") || text_eq(k, "ZAF") {
        Some("za")
    } else if text_eq(k, "INA") || text_eq(k, "IDN") {
        Some("id")
    } else if text_eq(k, "MAS") || text_eq(k, "MYS") {
        Some("my")
    } else if text_eq(k, "TPE") {
        Some("tw")
    } else if text_eq(k, "VEN") {
        Some("ve")
    } else if text_eq(k, "LBN") {
        Some("lb")
    } else if text_eq(k, "LUX") {
        Some("lu")
    } else if text_eq(k, "SMR") {
        Some("sm")
    } else if text_eq(k, "AND") {
        Some("ad")
    } else if text_eq(k, "LIE") {
        Some("li")
    } else {
        None
    }
}

/// Stable fallback when OpenF1 omits `country_code` and car numbers change.
fn driver_acronym_to_iso2(name_acronym: &str) -> (r: Option<&'static str>)
    ensures
        opt_text(r) == acronym_iso2(ascii_upper(trimmed(name_acronym@))),
{
    let key = to_ascii_uppercase(trim(name_acronym));
    let k = key.as_str();
    if text_eq(k, "VER") {
        Some("nl")
    } else if text_eq(k, "NOR") || text_eq(k, "HAM") || text_eq(k, "RUS") || text_eq(k, "BEA") || text_eq(k, "LIN") {
        Some("gb")
    } else if text_eq(k, "BOR") {
        Some("br")
    } else if text_eq(k, "HAD") || text_eq(k, "GAS") || text_eq(k, "OCO") {
        Some("fr")
    } else if text_eq(k, "PER") {
        Some("mx")
    } else if text_eq(k, "ANT") {
        Some("it")
    } else if text_eq(k, "ALO") || text_eq(k, "SAI") {
        Some("es")
    } else if text_eq(k, "LEC") {
        Some("mc")
    } else if text_eq(k, "STR") {
        Some("ca")
    } else if text_eq(k, "ALB") {
        Some("th")
    } else if text_eq(k, "HUL") {
        Some("de")
    } else if text_eq(k, "LAW") {
        Some("nz")
    } else if text_eq(k, "COL") {
        Some("ar")
    } else if text_eq(k, "BOT") {
        Some("fi")
    } else if text_eq(k, "PIA") {
        Some("au")
    } else if text_eq(k, "TSU") {
        Some("jp")
    } else if text_eq(k, "DOO") {
        Some("au")
    } else {
        None
    }
}

/// Season-specific fallback when acronym lookup is unavailable.
fn driver_number_to_iso2(driver_number: i64) -> (r: Option<&'static str>)
    ensures
        opt_text(r) == number_iso2(driver_number),
{
    match driver_number {
        1 => Some("gb"),
        3 => Some("nl"),
        5 => Some("br"),
        6 => Some("fr"),
        10 => Some("fr"),
        11 => Some("mx"),
        12 => Some("it"),
        14 => Some("es"),
        16 => Some("mc"),
        18 => Some("ca"),
        23 => Some("th"),
        27 => Some("de"),
        30 => Some("nz"),
        31 => Some("fr"),
        41 => Some("gb"),
        43 => Some("ar"),
        44 => Some("gb"),
        55 => Some("es"),
        63 => Some("gb"),
        77 => Some("fi"),
        81 => Some("au"),
        87 => Some("gb"),
        _ => None,
    }
}

fn team_logo_slug(team_name: &str) -> (r: Option<&'static str>)
    ensures
        opt_text(r) == logo_slug(spec_to_lowercase(team_name@)),
{
    let lower = to_lowercase(team_name);
    let l = lower.as_str();
    if contains(l, "racing bulls") || contains(l, "visa cash app rb") {
        Some("rb")
    } else if contains(l, "red bull") {
        Some("red%20bull")
    } else if contains(l, "mclaren") {
        Some("mclaren")
    } else if contains(l, "ferrari") {
        Some("ferrari")
    } else if contains(l, "mercedes") {
        Some("mercedes")
    } else if contains(l, "aston martin") {
        Some("aston%20martin")
    } else if contains(l, "alpine") {
        Some("alpine")
    } else if contains(l, "williams") {
        Some("williams")
    } else if contains(l, "haas") {
        Some("haas")
    } else if contains(l, "kick sauber") || contains(l, "stake f1") || contains(l, "alfa romeo") || contains(l, "sauber") {
        Some("kick%20sauber")
    } else if contains(l, "alphatauri") {
        Some("alphatauri")
    } else {
        None
    }
}

fn country_code_to_iso2(country_code: &str) -> (r: Option<String>)
    ensures
        opt_string(r) == country_iso2(country_code@),
{
    let code = trim(country_code);
    let cs = chars_of(code);
    if cs.len() == 0 {
        return None;
    }
    if cs.len() == 2 && (('a' <= cs[0] && cs[0] <= 'z') || ('A' <= cs[0] && cs[0] <= 'Z')) && (('a'
        <= cs[1] && cs[1] <= 'z') || ('A' <= cs[1] && cs[1] <= 'Z')) {
        return Some(to_ascii_lowercase(code));
    }
    match f1_country_code_to_iso2(code) {
        Some(iso) => Some(new_text(iso)),
        None => None,
    }
}

fn flag_cdn_url(iso2: &str) -> (r: String)
    ensures
        r@ == flag_url_text(iso2@),
{
    let mut url = new_text("https://flagcdn.com/h24/");
    let code = to_ascii_lowercase(trim(iso2));
    append_text(&mut url, code.as_str());
    append_text(&mut url, ".png");
    url
}

/// Flag country code of a driver: `country_code` when it maps to a country, otherwise the
/// driver's name acronym, otherwise the car number.
pub fn driver_flag_iso2(country_code: &str, driver_number: i64, name_acronym: &str) -> (r: Option<
    String,
>)
    ensures
        opt_string(r) == flag_iso2(country_code@, driver_number, name_acronym@),
{
    if let Some(iso2) = country_code_to_iso2(country_code) {
        return Some(iso2);
    }
    if let Some(iso2) = driver_acronym_to_iso2(name_acronym) {
        return Some(new_text(iso2));
    }
    match driver_number_to_iso2(driver_number) {
        Some(iso2) => Some(new_text(iso2)),
        None => None,
    }
}

/// Flag image URL of a driver, from the country that `driver_flag_iso2` finds.
pub fn driver_flag_url(country_code: &str, driver_number: i64, name_acronym: &str) -> (r: Option<
    String,
>)
    ensures
        opt_string(r) == match flag_iso2(country_code@, driver_number, name_acronym@) {
            Some(iso) => Some(flag_url_text(iso)),
            None => None,
        },
{
    match driver_flag_iso2(country_code, driver_number, name_acronym) {
        Some(iso) => Some(flag_cdn_url(iso.as_str())),
        None => None,
    }
}

fn team_logo_cdn_url(team_name: &str, width: u32, height: u32) -> (r: Option<String>)
    ensures
        opt_string(r) == match logo_slug(spec_to_lowercase(team_name@)) {
            Some(slug) => Some(logo_url_text(slug, width, height)),
            None => None,
        },
{
    let slug = match team_logo_slug(team_name) {
        Some(s) => s,
        None => return None,
    };
    let mut url = new_text("https://media.formula1.com/image/upload/c_fit,w_");
    append_text(&mut url, u64_text(width as u64).as_str());
    append_text(&mut url, ",h_");
    append_text(&mut url, u64_text(height as u64).as_str());
    append_text(
        &mut url,
        "/f_auto/q_auto/content/dam/fom-website/2018-redesign-assets/team%20logos/",
    );
    append_text(&mut url, slug);
    Some(url)
}

/// Square (256x256) constructor logo URL.
pub fn team_logo_url(team_name: &str) -> (r: Option<String>)
    ensures
        opt_string(r) == match logo_slug(spec_to_lowercase(team_name@)) {
            Some(slug) => Some(logo_url_text(slug, 256, 256)),
            None => None,
        },
{
    team_logo_cdn_url(team_name, 256, 256)
}

/// Wide (480x192) constructor logo URL for display.
pub fn team_logo_display_url(team_name: &str) -> (r: Option<String>)
    ensures
        opt_string(r) == match logo_slug(spec_to_lowercase(team_name@)) {
            Some(slug) => Some(logo_url_text(slug, 480, 192)),
            None => None,
        },
{
    team_logo_cdn_url(team_name, 480, 192)
}

} // verus!
