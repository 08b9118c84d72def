use semcode::profile::{
    can_learn_alias, is_alias_input_token, is_supported_canonical_token, train_profile,
    train_profile_in_place, AbiProfile, CapabilityExpectations, CompatibilityMode, FeaturePolicy,
    ParserProfile, ProfileVersion, TrainingSample,
};

#[test]
fn train_profile_learns_aliases_from_examples() {
    let samples = [
        TrainingSample {
            input: "out = a AND b",
            target: "out = a & b",
        },
        TrainingSample {
            input: "q = a OR b",
            target: "q = a | b",
        },
        TrainingSample {
            input: "x = NOT FALSE",
            target: "x = ! F",
        },
        TrainingSample {
            input: "y = TRUE XOR x",
            target: "y = T ^ x",
        },
    ];
    let profile = train_profile(&samples);

    assert_eq!(profile.identity, "semantic.core");
    assert_eq!(profile.abi, AbiProfile::Core);
    assert_eq!(profile.compatibility, CompatibilityMode::Strict);
    assert_eq!(profile.aliases.get("AND"), Some(&"&".to_string()));
    assert_eq!(profile.aliases.get("TRUE"), Some(&"T".to_string()));
    assert_eq!(profile.normalize("z = TRUE AND NOT a"), "z = T & ! a");
}

#[test]
fn normalize_splits_single_char_tokens_and_stops_at_comments() {
    let profile = ParserProfile::default();
    assert_eq!(profile.normalize("a=(b&c)|!d # tail"), "a = ( b & c ) | ! d");
    assert_eq!(profile.normalize("x // y"), "x");
    assert_eq!(profile.normalize("  \t\n"), "");
    assert_eq!(profile.normalize("a/b c"), "a/b c");
    assert_eq!(profile.normalize("ab//c"), "ab");
}

#[test]
fn training_keeps_first_alias_and_skips_mismatched_lengths() {
    let mut profile = ParserProfile::default();
    profile.add_alias("AND", "^");
    let samples = [
        TrainingSample {
            input: "a AND b",
            target: "a & b",
        },
        TrainingSample {
            input: "a OR b c",
            target: "a | b",
        },
        TrainingSample {
            input: "x YES",
            target: "x T",
        },
        TrainingSample {
            input: "x YES",
            target: "x F",
        },
        TrainingSample {
            input: "x +",
            target: "x T",
        },
    ];
    train_profile_in_place(&mut profile, &samples);
    assert_eq!(profile.aliases.get("AND"), Some(&"^".to_string()));
    assert_eq!(profile.aliases.get("OR"), None);
    assert_eq!(profile.aliases.get("YES"), Some(&"T".to_string()));
    assert_eq!(profile.aliases.get("+"), None);
    assert_eq!(profile.aliases.len(), 2);
}

#[test]
fn add_alias_replaces_earlier_alias() {
    let mut profile = ParserProfile::foundation_default();
    profile.add_alias("AND", "&");
    profile.add_alias("AND", "|");
    assert_eq!(profile.aliases.get("AND"), Some(&"|".to_string()));
    assert_eq!(profile.aliases.len(), 1);
    assert_eq!(profile.aliases.entry_at(0), ("AND", "|"));
    assert_eq!(profile.identity, "semantic.foundation");
    assert_eq!(profile.abi, AbiProfile::GateSurface);
    assert!(profile.features.allow_logos_surface);
    let copy = profile.clone();
    assert_eq!(copy.aliases.get("AND"), Some(&"|".to_string()));
}

#[test]
fn alias_token_classes() {
    assert!(is_alias_input_token("AND_2"));
    assert!(!is_alias_input_token(""));
    assert!(!is_alias_input_token("a-b"));
    assert!(!is_alias_input_token("é"));
    assert!(is_supported_canonical_token("S"));
    assert!(!is_supported_canonical_token("=="));
    assert!(!is_supported_canonical_token("x"));
    assert!(can_learn_alias("TRUE", "T"));
    assert!(!can_learn_alias("TRUE", "true"));
}

#[test]
fn profile_defaults() {
    assert_eq!(ProfileVersion::default(), ProfileVersion::new(1, 0));
    assert_eq!(FeaturePolicy::default(), FeaturePolicy::core_policy());
    assert!(!FeaturePolicy::core_policy().allow_f64_math);
    assert_eq!(
        CapabilityExpectations::default(),
        CapabilityExpectations::permissive()
    );
    assert_eq!(AbiProfile::default(), AbiProfile::Core);
    assert_eq!(CompatibilityMode::default(), CompatibilityMode::Strict);
    let p = ParserProfile::default();
    assert_eq!(p.aliases.len(), 0);
}

#[test]
fn normalizing_a_normal_form_changes_nothing() {
    let p = ParserProfile::default();
    for s in ["a=(b)//c", "x # y", "   ", "f ( x )  &&  y", "a/b / /c"] {
        let once = p.normalize(s);
        assert_eq!(p.normalize(&once), once);
    }
    assert_eq!(p.normalize("a=(b)//c"), "a = ( b )");
    assert_eq!(p.normalize("x # y"), "x");
    assert_eq!(p.normalize("   "), "");
}

#[test]
fn trained_profile_keeps_default_features_and_capabilities() {
    let p = train_profile(&[]);
    assert_eq!(p.features, FeaturePolicy::core_policy());
    assert_eq!(p.capabilities, CapabilityExpectations::permissive());
}
