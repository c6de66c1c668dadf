use jbonsai::engine::{parse_stream_options, parse_usize, EngineError, LabelError};
use jbonsai::model::ModelError;
use jbonsai::mutated;

#[test]
fn options_are_read_in_order() {
    let options = vec![
        "GAMMA=3".to_string(),
        "LN_GAIN=1".to_string(),
        "ALPHA=0.42".to_string(),
        "FULLCONTEXT_FORMAT=HTS_TTS_JPN".to_string(),
        "no separator here".to_string(),
    ];
    let st = parse_stream_options(&options).unwrap();
    assert_eq!(st.stage, Some(3));
    assert_eq!(st.use_log_gain, Some(true));
    assert_eq!(st.alpha, Some("0.42".to_string()));
}

#[test]
fn later_options_override_earlier() {
    let options = vec!["GAMMA=3".to_string(), "GAMMA=2".to_string(), "LN_GAIN=0".to_string()];
    let st = parse_stream_options(&options).unwrap();
    assert_eq!(st.stage, Some(2));
    assert_eq!(st.use_log_gain, Some(false));
    assert_eq!(st.alpha, None);
}

#[test]
fn bad_gamma_names_its_key() {
    let options = vec!["GAMMA=x".to_string()];
    assert_eq!(
        parse_stream_options(&options),
        Err(EngineError::ParseOptionError("GAMMA".to_string()))
    );
}

#[test]
fn bad_ln_gain_names_its_key() {
    let options = vec!["LN_GAIN=2".to_string()];
    assert_eq!(
        parse_stream_options(&options),
        Err(EngineError::ParseOptionError("LN_GAIN".to_string()))
    );
}

#[test]
fn empty_options_set_nothing() {
    let st = parse_stream_options(&Vec::new()).unwrap();
    assert_eq!(st.stage, None);
    assert_eq!(st.use_log_gain, None);
    assert_eq!(st.alpha, None);
}

#[test]
fn usize_parsing_matches_std() {
    for s in ["0", "42", "+42", "18446744073709551615", "18446744073709551616", "", "+", "4 2", "-1", "0x10"] {
        assert_eq!(parse_usize(s), s.parse::<usize>().ok(), "input {:?}", s);
    }
}

#[test]
fn error_kinds_carry_their_data() {
    let e = EngineError::ModelError(ModelError::InvalidPattern("a(".to_string()));
    assert_eq!(
        e,
        EngineError::ModelError(ModelError::InvalidPattern("a(".to_string()))
    );
    assert_ne!(
        EngineError::LabelError(LabelError::Empty),
        EngineError::LabelError(LabelError::MalformedTime)
    );
}

#[test]
fn mutated_applies_the_function() {
    let v = mutated(41i32, |x| x + 1);
    assert_eq!(v, 42);
    let words = mutated(vec!["b".to_string()], |mut w: Vec<String>| {
        w.push("c".to_string());
        w
    });
    assert_eq!(words, vec!["b".to_string(), "c".to_string()]);
}
