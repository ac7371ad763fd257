use foreman::settings::{choose_config_source, ConfigSource, LabelMap, MissingOverrideFile};

#[test]
fn empty_label_map_renders_an_empty_header() {
    let m = LabelMap::new();
    assert_eq!(m.to_header_value(), "");
}

#[test]
fn labels_render_as_comma_separated_pairs() {
    let mut m = LabelMap::new();
    m.push("zone".to_string(), "eu-1".to_string());
    m.push("tier".to_string(), "fast".to_string());
    assert_eq!(m.to_header_value(), "zone=eu-1,tier=fast");
}

#[test]
fn label_keys_and_values_are_percent_encoded() {
    let mut m = LabelMap::new();
    m.push("a b".to_string(), "c/d".to_string());
    // A space becomes %20 and a slash %2F: the encoder really ran.
    assert_eq!(m.to_header_value(), "a%20b=c%2Fd");
}

#[test]
fn config_override_wins_but_must_exist() {
    assert_eq!(choose_config_source(true, true, true, true, true), Ok(ConfigSource::Override));
    assert_eq!(
        choose_config_source(true, false, true, true, true),
        Err(MissingOverrideFile)
    );
}

#[test]
fn config_files_are_tried_in_order() {
    assert_eq!(
        choose_config_source(false, false, true, true, true),
        Ok(ConfigSource::WorkingDirectory)
    );
    assert_eq!(
        choose_config_source(false, false, false, true, true),
        Ok(ConfigSource::SystemWide)
    );
    assert_eq!(
        choose_config_source(false, false, false, false, true),
        Ok(ConfigSource::HomeDirectory)
    );
    assert_eq!(choose_config_source(false, false, false, false, false), Ok(ConfigSource::NoFile));
}
