use slacordbot::config::{ConfigError, SlacordConfig, TriggerResponse};

fn rule(triggers: &[&str], responses: &[&str]) -> TriggerResponse {
    TriggerResponse {
        triggers: triggers.iter().map(|s| s.to_string()).collect(),
        responses: responses.iter().map(|s| s.to_string()).collect(),
    }
}

#[test]
fn rule_without_responses_is_refused() {
    let r = SlacordConfig::new(vec![rule(&["a"], &["x"]), rule(&["b"], &[]), rule(&["c"], &[])]);
    assert_eq!(r.unwrap_err(), ConfigError::EmptyResponses(1));
}

#[test]
fn well_formed_rules_are_kept_in_order() {
    let c = SlacordConfig::new(vec![rule(&["a"], &["x"]), rule(&["b"], &["y", "z"])]).unwrap();
    assert_eq!(c.responses.len(), 2);
    assert_eq!(c.responses[1].responses, vec!["y", "z"]);
}

#[test]
fn empty_configuration_is_accepted() {
    let c = SlacordConfig::new(vec![]).unwrap();
    assert!(c.responses.is_empty());
}
