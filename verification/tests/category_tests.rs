use app_launcher::category::guess_category;

#[test]
fn development_keywords() {
    assert_eq!(guess_category("Visual Studio Code"), "Development");
    assert_eq!(guess_category("iTerm"), "Development");
    assert_eq!(guess_category("Xcode"), "Development");
}

#[test]
fn social_keywords() {
    assert_eq!(guess_category("Discord"), "Social");
    assert_eq!(guess_category("Slack"), "Social");
    assert_eq!(guess_category("Mail"), "Social");
    assert_eq!(guess_category("Messages"), "Social");
}

#[test]
fn media_keywords() {
    assert_eq!(guess_category("Spotify"), "Media");
    assert_eq!(guess_category("Music"), "Media");
    assert_eq!(guess_category("TV"), "Media");
    assert_eq!(guess_category("Photos"), "Media");
}

#[test]
fn internet_keywords() {
    assert_eq!(guess_category("Google Chrome"), "Internet");
    assert_eq!(guess_category("Safari"), "Internet");
    assert_eq!(guess_category("Firefox"), "Internet");
}

#[test]
fn design_keywords() {
    assert_eq!(guess_category("Figma"), "Design");
    assert_eq!(guess_category("Adobe Illustrator"), "Design");
}

#[test]
fn system_keywords() {
    assert_eq!(guess_category("Settings"), "System");
    assert_eq!(guess_category("Preferences"), "System");
}

#[test]
fn case_insensitive_matching() {
    assert_eq!(guess_category("XCODE"), "Development");
    assert_eq!(guess_category("ChRoMe"), "Internet");
    assert_eq!(guess_category("sPoTiFy"), "Media");
}

#[test]
fn unmatched_names_are_other() {
    assert_eq!(guess_category("Notes"), "Other");
    assert_eq!(guess_category("Calendar"), "Other");
    assert_eq!(guess_category(""), "Other");
}

#[test]
fn earlier_group_wins() {
    // "term" (first group) beats "mail" (second group).
    assert_eq!(guess_category("Terminal Mail"), "Development");
    // "slack" (second group) beats "music" (third group).
    assert_eq!(guess_category("Slack Music"), "Social");
    // "photo" (third group) beats "adobe" (fifth group).
    assert_eq!(guess_category("Adobe Photo Viewer"), "Media");
    // "activity" (sixth group) only reached when nothing earlier matches.
    assert_eq!(guess_category("Activity Monitor"), "System");
}

#[test]
fn keyword_inside_longer_word_matches() {
    // Substring matching, not word matching: "tv" inside "Chutvley".
    assert_eq!(guess_category("Chutvley"), "Media");
    assert_eq!(guess_category("Decoder"), "Development");
}
