use tzlint::json::{JsonMember, JsonNumber, JsonValue};
use tzlint::pdk::{
    Capability, Diagnostic, Fix, KnownLanguage, LintHelpers, LintRequest, RuleManifest, Span,
    TextContext, TextSpan, Token,
};
use tzlint::plugins::no_doubled_joshi::{
    calculate_interval, check_doubled_particles, concat_adjacent_particles, create_error_message,
    create_particle_key, extract_particles_from_tokens, get_manifest, is_exception_particle,
    is_ka_douka_pattern, is_parallel_particle, try_lint, Config, ParticleInfo, RULE_ID, VERSION,
};

fn obj(members: Vec<(&str, JsonValue)>) -> JsonValue {
    JsonValue::Object(members.into_iter().map(|(k, v)| JsonMember { key: k.to_string(), value: v }).collect())
}

fn text(s: &str) -> JsonValue {
    JsonValue::String(s.to_string())
}

fn num(n: u64) -> JsonValue {
    JsonValue::Number(JsonNumber::PosInt(n))
}

fn create_request(source: &str, config: JsonValue) -> LintRequest {
    LintRequest {
        node: obj(vec![
            ("type", text("Str")),
            ("range", JsonValue::Array(vec![num(0), num(source.len() as u64)])),
            ("value", text(source)),
        ]),
        nodes: vec![],
        config,
        source: source.to_string(),
        file_path: None,
        helpers: None,
        tokens: vec![],
        sentences: vec![],
    }
}

fn create_token(surface: &str, pos: Vec<&str>, start: u32, end: u32) -> Token {
    Token::new(surface, pos.iter().map(|s| s.to_string()).collect(), TextSpan::new(start, end))
}

fn create_particle(
    surface: &str,
    key: &str,
    start: usize,
    end: usize,
    idx: usize,
    prev: &str,
    subtype: Option<&str>,
) -> ParticleInfo {
    ParticleInfo {
        surface: surface.to_string(),
        key: key.to_string(),
        byte_start: start,
        byte_end: end,
        token_index: idx,
        prev_word: prev.to_string(),
        pos_subtype: subtype.map(|s| s.to_string()),
    }
}

#[test]
fn config_defaults() {
    let config = Config::default();
    assert_eq!(config.min_interval, 1);
    assert!(!config.strict);
    assert!(config.allow.is_empty());
    assert!(config.separator_characters.contains(&"。".to_string()));
    assert!(config.comma_characters.contains(&"、".to_string()));
}

#[test]
fn particle_key_generation() {
    let token = Token::new("は", vec!["助詞".to_string(), "係助詞".to_string()], TextSpan::new(0, 3));
    assert_eq!(create_particle_key(&token), "は:助詞.係助詞");
    let token_no_subtype = Token::new("は", vec!["助詞".to_string()], TextSpan::new(0, 3));
    assert_eq!(create_particle_key(&token_no_subtype), "は:助詞");
}

#[test]
fn exception_particle_detection() {
    let no_token = Token::new("の", vec!["助詞".to_string(), "連体化".to_string()], TextSpan::new(0, 3));
    assert!(is_exception_particle(&no_token));
    let wo_token = Token::new("を", vec!["助詞".to_string(), "格助詞".to_string()], TextSpan::new(0, 3));
    assert!(is_exception_particle(&wo_token));
    let te_token = Token::new("て", vec!["助詞".to_string(), "接続助詞".to_string()], TextSpan::new(0, 3));
    assert!(is_exception_particle(&te_token));
    let ha_token = Token::new("は", vec!["助詞".to_string(), "係助詞".to_string()], TextSpan::new(0, 3));
    assert!(!is_exception_particle(&ha_token));
}

#[test]
fn parallel_particle_detection() {
    let tari_token = Token::new("たり", vec!["助詞".to_string(), "並立助詞".to_string()], TextSpan::new(0, 6));
    assert!(is_parallel_particle(&tari_token));
    let ha_token = Token::new("は", vec!["助詞".to_string(), "係助詞".to_string()], TextSpan::new(0, 3));
    assert!(!is_parallel_particle(&ha_token));
}

#[test]
fn test_concat_adjacent_particles() {
    let particles = vec![
        create_particle("に", "に:助詞.格助詞", 0, 3, 0, "", Some("格助詞")),
        create_particle("は", "は:助詞.係助詞", 3, 6, 1, "", Some("係助詞")),
    ];
    let concatenated = concat_adjacent_particles(particles);
    assert_eq!(concatenated.len(), 1);
    assert_eq!(concatenated[0].surface, "には");
    assert!(concatenated[0].key.contains("連語"));
    assert_eq!(concatenated[0].key, "には:連語");
    assert_eq!((concatenated[0].byte_start, concatenated[0].byte_end), (0, 6));
}

#[test]
fn interval_calculation_with_comma() {
    let config = Config::default();
    let source = "私は、学生は";
    let prev = create_particle("は", "は:助詞.係助詞", 0, 3, 0, "私", Some("係助詞"));
    let curr = create_particle("は", "は:助詞.係助詞", source.len() - 3, source.len(), 1, "学生", Some("係助詞"));
    let interval = calculate_interval(&prev, &curr, source, &config);
    assert!(interval >= 1);
}

#[test]
fn error_message_format() {
    let particles = vec![
        create_particle("は", "は:助詞.係助詞", 0, 3, 0, "私", Some("係助詞")),
        create_particle("は", "は:助詞.係助詞", 6, 9, 1, "彼", Some("係助詞")),
    ];
    let refs: Vec<&ParticleInfo> = particles.iter().collect();
    let message = create_error_message("は", &refs);
    assert!(message.contains("私\"は\""));
    assert!(message.contains("彼\"は\""));
    assert!(message.contains("文を読みにくくしています"));
}

#[test]
fn lib_manifest_contains_required_fields() {
    let manifest = RuleManifest::new(RULE_ID, VERSION)
        .with_description("Detect repeated Japanese particles (助詞)")
        .with_fixable(true)
        .with_node_types(vec!["Str".to_string()])
        .with_languages(vec![KnownLanguage::Ja])
        .with_capabilities(vec![Capability::Morphology]);
    assert_eq!(manifest.name, RULE_ID);
    assert_eq!(manifest.version, VERSION);
    assert!(manifest.description.is_some());
    assert!(manifest.fixable);
    assert!(manifest.node_types.contains(&"Str".to_string()));
    assert!(manifest.languages.contains(&KnownLanguage::Ja));
    assert!(manifest.capabilities.contains(&Capability::Morphology));
    let built = get_manifest();
    assert_eq!(built.description, manifest.description);
    assert_eq!(built.languages, manifest.languages);
}

#[test]
fn version_bumped() {
    assert_eq!(VERSION, "1.0.0");
}

#[test]
fn valid_no_exception() {
    let config = Config::default();
    let tokens = vec![
        create_token("既存", vec!["名詞"], 0, 6),
        create_token("の", vec!["助詞", "連体化"], 6, 9),
        create_token("コード", vec!["名詞"], 9, 15),
        create_token("の", vec!["助詞", "連体化"], 15, 18),
        create_token("利用", vec!["名詞", "サ変接続"], 18, 24),
    ];
    let particles = extract_particles_from_tokens(&tokens, &config);
    assert_eq!(particles.len(), 0);
}

#[test]
fn valid_wo_exception() {
    let config = Config::default();
    let tokens = vec![
        create_token("オブジェクト", vec!["名詞"], 0, 18),
        create_token("を", vec!["助詞", "格助詞"], 18, 21),
        create_token("返す", vec!["動詞"], 21, 27),
        create_token("関数", vec!["名詞"], 27, 33),
        create_token("を", vec!["助詞", "格助詞"], 33, 36),
        create_token("公開", vec!["名詞", "サ変接続"], 36, 42),
    ];
    let particles = extract_particles_from_tokens(&tokens, &config);
    assert_eq!(particles.len(), 0);
}

#[test]
fn valid_different_subtypes() {
    let config = Config::default();
    let tokens = vec![
        create_token("ターミナル", vec!["名詞"], 0, 15),
        create_token("で", vec!["助詞", "格助詞"], 15, 18),
        create_token("「test」", vec!["名詞"], 18, 27),
        create_token("と", vec!["助詞", "格助詞"], 27, 30),
        create_token("入力", vec!["名詞", "サ変接続"], 30, 36),
        create_token("する", vec!["動詞"], 36, 42),
        create_token("と", vec!["助詞", "接続助詞"], 42, 45),
        create_token("画面", vec!["名詞"], 45, 51),
    ];
    let particles = extract_particles_from_tokens(&tokens, &config);
    assert_eq!(particles.len(), 3);
    let to_particles: Vec<&ParticleInfo> = particles.iter().filter(|p| p.surface == "と").collect();
    assert_eq!(to_particles.len(), 2);
    assert_ne!(to_particles[0].key, to_particles[1].key);
}

#[test]
fn valid_comma_increases_interval() {
    let config = Config::default();
    let source = "これがiPhone、これがAndroidです。";
    let prev = create_particle("が", "が:助詞.格助詞", 6, 9, 0, "これ", Some("格助詞"));
    let curr = create_particle("が", "が:助詞.格助詞", 21, 24, 1, "これ", Some("格助詞"));
    let interval = calculate_interval(&prev, &curr, source, &config);
    assert!(interval >= 1);
}

#[test]
fn valid_parallel_particles() {
    let config = Config::default();
    let tokens = vec![
        create_token("登っ", vec!["動詞"], 0, 6),
        create_token("たり", vec!["助詞", "並立助詞"], 6, 12),
        create_token("降り", vec!["動詞"], 12, 18),
        create_token("たり", vec!["助詞", "並立助詞"], 18, 24),
    ];
    let particles = extract_particles_from_tokens(&tokens, &config);
    assert_eq!(particles.len(), 2);
    assert!(particles[0].pos_subtype == Some("並立助詞".to_string()));
    assert!(particles[1].pos_subtype == Some("並立助詞".to_string()));
    // A pair of parallel particles is left alone.
    let diagnostics = check_doubled_particles(&particles, &tokens, "登ったり降りたり", &config);
    assert!(diagnostics.is_empty());
}

#[test]
fn valid_ka_douka_pattern() {
    let config = Config::default();
    let tokens = vec![
        create_token("これ", vec!["名詞"], 0, 6),
        create_token("に", vec!["助詞", "格助詞"], 6, 9),
        create_token("する", vec!["動詞"], 9, 15),
        create_token("か", vec!["助詞", "副助詞"], 15, 18),
        create_token("どう", vec!["副詞"], 18, 24),
        create_token("か", vec!["助詞", "副助詞"], 24, 27),
        create_token("検討", vec!["名詞", "サ変接続"], 27, 33),
    ];
    let particles = extract_particles_from_tokens(&tokens, &config);
    let ka_particles: Vec<&ParticleInfo> = particles.iter().filter(|p| p.surface == "か").collect();
    assert_eq!(ka_particles.len(), 2);
    let ka_refs: Vec<&ParticleInfo> = ka_particles.iter().map(|p| *p).collect();
    assert!(is_ka_douka_pattern(&ka_refs, &tokens));
}

#[test]
fn valid_te_connection() {
    let config = Config::default();
    let tokens = vec![
        create_token("まず", vec!["副詞"], 0, 6),
        create_token("は", vec!["助詞", "係助詞"], 6, 9),
        create_token("試し", vec!["動詞"], 9, 15),
        create_token("て", vec!["助詞", "接続助詞"], 15, 18),
        create_token("いただき", vec!["動詞"], 18, 27),
        create_token("て", vec!["助詞", "接続助詞"], 27, 30),
    ];
    let particles = extract_particles_from_tokens(&tokens, &config);
    assert_eq!(particles.len(), 1);
    assert_eq!(particles[0].surface, "は");
}

#[test]
fn valid_rengo_different_keys() {
    let config = Config::default();
    let tokens = vec![
        create_token("その", vec!["連体詞"], 0, 6),
        create_token("ため", vec!["名詞"], 6, 12),
        create_token("、", vec!["記号"], 12, 15),
        create_token("文字列", vec!["名詞"], 15, 24),
        create_token("の", vec!["助詞", "連体化"], 24, 27),
        create_token("長さ", vec!["名詞"], 27, 33),
        create_token("を", vec!["助詞", "格助詞"], 33, 36),
        create_token("正確", vec!["名詞", "形容動詞語幹"], 36, 42),
        create_token("に", vec!["助詞", "格助詞"], 42, 45),
        create_token("測る", vec!["動詞"], 45, 51),
        create_token("に", vec!["助詞", "格助詞"], 51, 54),
        create_token("は", vec!["助詞", "係助詞"], 54, 57),
    ];
    let particles = extract_particles_from_tokens(&tokens, &config);
    let concatenated = concat_adjacent_particles(particles);
    assert!(concatenated.iter().any(|p| p.surface == "には"));
}

#[test]
fn invalid_doubled_ha() {
    let config = Config::default();
    let source = "私は彼は好きだ";
    let tokens = vec![
        create_token("私", vec!["名詞"], 0, 3),
        create_token("は", vec!["助詞", "係助詞"], 3, 6),
        create_token("彼", vec!["名詞"], 6, 9),
        create_token("は", vec!["助詞", "係助詞"], 9, 12),
        create_token("好き", vec!["名詞"], 12, 18),
    ];
    let particles = extract_particles_from_tokens(&tokens, &config);
    assert_eq!(particles.len(), 2);
    let diagnostics = check_doubled_particles(&particles, &tokens, source, &config);
    assert_eq!(diagnostics.len(), 1);
    assert!(diagnostics[0].message.contains("は"));
    assert!(diagnostics[0].message.contains("私\"は\""));
    assert!(diagnostics[0].message.contains("彼\"は\""));
}

#[test]
fn invalid_doubled_de() {
    let config = Config::default();
    let source = "材料不足で代替素材で製品を作った。";
    let tokens = vec![
        create_token("材料", vec!["名詞"], 0, 6),
        create_token("不足", vec!["名詞", "サ変接続"], 6, 12),
        create_token("で", vec!["助詞", "格助詞"], 12, 15),
        create_token("代替", vec!["名詞", "サ変接続"], 15, 21),
        create_token("素材", vec!["名詞"], 21, 27),
        create_token("で", vec!["助詞", "格助詞"], 27, 30),
        create_token("製品", vec!["名詞"], 30, 36),
    ];
    let particles = extract_particles_from_tokens(&tokens, &config);
    assert_eq!(particles.len(), 2);
    let diagnostics = check_doubled_particles(&particles, &tokens, source, &config);
    assert_eq!(diagnostics.len(), 1);
    assert!(diagnostics[0].message.contains("で"));
}

#[test]
fn invalid_strict_mode() {
    let config = Config { strict: true, ..Default::default() };
    let tokens = vec![
        create_token("既存", vec!["名詞"], 0, 6),
        create_token("の", vec!["助詞", "連体化"], 6, 9),
        create_token("コード", vec!["名詞"], 9, 15),
        create_token("の", vec!["助詞", "連体化"], 15, 18),
        create_token("利用", vec!["名詞", "サ変接続"], 18, 24),
    ];
    let particles = extract_particles_from_tokens(&tokens, &config);
    assert_eq!(particles.len(), 2);
    let source = "既存のコードの利用";
    let diagnostics = check_doubled_particles(&particles, &tokens, source, &config);
    assert_eq!(diagnostics.len(), 1);
}

#[test]
fn invalid_strict_mode_adjacent() {
    let config = Config { strict: true, ..Default::default() };
    let source = "彼女は困り切った表情で小声で尋ねた。";
    let tokens = vec![
        create_token("彼女", vec!["名詞"], 0, 6),
        create_token("は", vec!["助詞", "係助詞"], 6, 9),
        create_token("困り", vec!["動詞"], 9, 15),
        create_token("切っ", vec!["動詞"], 15, 21),
        create_token("た", vec!["助動詞"], 21, 24),
        create_token("表情", vec!["名詞"], 24, 30),
        create_token("で", vec!["助詞", "格助詞"], 30, 33),
        create_token("小声", vec!["名詞"], 33, 39),
        create_token("で", vec!["助詞", "格助詞"], 39, 42),
    ];
    let particles = extract_particles_from_tokens(&tokens, &config);
    let de_particles: Vec<&ParticleInfo> = particles.iter().filter(|p| p.surface == "で").collect();
    assert_eq!(de_particles.len(), 2);
    let diagnostics = check_doubled_particles(&particles, &tokens, source, &config);
    assert!(diagnostics.iter().any(|d| d.message.contains("で")));
}

#[test]
fn invalid_min_interval() {
    let config = Config { min_interval: 2, ..Default::default() };
    let source = "白装束で重力のない足どりでやってくる";
    let tokens = vec![
        create_token("白装束", vec!["名詞"], 0, 9),
        create_token("で", vec!["助詞", "格助詞"], 9, 12),
        create_token("重力", vec!["名詞"], 12, 18),
        create_token("の", vec!["助詞", "連体化"], 18, 21),
        create_token("ない", vec!["形容詞"], 21, 27),
        create_token("足どり", vec!["名詞"], 27, 36),
        create_token("で", vec!["助詞", "格助詞"], 36, 39),
    ];
    let particles = extract_particles_from_tokens(&tokens, &config);
    let diagnostics = check_doubled_particles(&particles, &tokens, source, &config);
    assert!(diagnostics.len() >= 1);
}

#[test]
fn invalid_rengo_doubled() {
    let config = Config::default();
    let source = "文字列にはそこには問題がある。";
    let tokens = vec![
        create_token("文字列", vec!["名詞"], 0, 9),
        create_token("に", vec!["助詞", "格助詞"], 9, 12),
        create_token("は", vec!["助詞", "係助詞"], 12, 15),
        create_token("そこ", vec!["名詞"], 15, 21),
        create_token("に", vec!["助詞", "格助詞"], 21, 24),
        create_token("は", vec!["助詞", "係助詞"], 24, 27),
        create_token("問題", vec!["名詞"], 27, 33),
    ];
    let particles = extract_particles_from_tokens(&tokens, &config);
    let concatenated = concat_adjacent_particles(particles);
    assert_eq!(concatenated.len(), 2);
    assert_eq!(concatenated[0].surface, "には");
    assert_eq!(concatenated[1].surface, "には");
    let diagnostics = check_doubled_particles(&concatenated, &tokens, source, &config);
    assert_eq!(diagnostics.len(), 1);
    assert!(diagnostics[0].message.contains("には"));
}

#[test]
fn options_allow() {
    let config = Config { allow: vec!["も".to_string()], ..Default::default() };
    let tokens = vec![
        create_token("太字", vec!["名詞"], 0, 6),
        create_token("も", vec!["助詞", "係助詞"], 6, 9),
        create_token("強調", vec!["名詞", "サ変接続"], 9, 15),
        create_token("も", vec!["助詞", "係助詞"], 15, 18),
    ];
    let particles = extract_particles_from_tokens(&tokens, &config);
    assert_eq!(particles.len(), 0);
}

#[test]
fn options_custom_separator() {
    let config = Config { separator_characters: vec!["♪".to_string()], ..Default::default() };
    let prev = create_particle("は", "は:助詞.係助詞", 3, 6, 0, "これ", Some("係助詞"));
    let source_with_separator = "これはペンです♪";
    let curr_after_sep = create_particle("は", "は:助詞.係助詞", 21, 24, 1, "これ", Some("係助詞"));
    let _interval = calculate_interval(&prev, &curr_after_sep, source_with_separator, &config);
}

#[test]
fn options_empty_comma_characters() {
    let config = Config { comma_characters: vec![], ..Default::default() };
    let source = "これがiPhone、これがAndroidです。";
    let prev = create_particle("が", "が:助詞.格助詞", 6, 9, 0, "これ", Some("格助詞"));
    let curr = create_particle("が", "が:助詞.格助詞", 21, 24, 1, "これ", Some("格助詞"));
    let interval = calculate_interval(&prev, &curr, source, &config);
    assert_eq!(interval, 0);
}

#[test]
fn interval_counts_commas_and_brackets_and_stops_at_separators() {
    let config = Config::default();
    let prev = create_particle("は", "k", 0, 3, 0, "", None);
    let curr = create_particle("は", "k", 15, 18, 1, "", None);
    // 「、」 counts once; 「（」 and 「）」 once each.
    assert_eq!(calculate_interval(&prev, &curr, "は、（あ）は", &config), 3);
    assert_eq!(calculate_interval(&prev, &curr, "は。（あ）は", &config), usize::MAX);
    let custom = Config { separator_characters: vec!["♪".to_string()], ..Default::default() };
    assert_eq!(calculate_interval(&prev, &curr, "は♪（あ）は", &custom), usize::MAX);
    assert_eq!(calculate_interval(&curr, &prev, "は、（あ）は", &config), 0);
}

#[test]
fn config_reads_options_and_rejects_wrong_types() {
    let c = Config::from_json(&obj(vec![("min_interval", num(3)), ("suggest_fix", JsonValue::Bool(true))])).unwrap();
    assert_eq!(c.min_interval, 3);
    assert!(c.suggest_fix);
    assert_eq!(c.separator_characters.len(), 7);
    assert!(Config::from_json(&obj(vec![("strict", text("yes"))])).is_none());
    assert!(Config::from_json(&JsonValue::Null).is_none());
    let d = Config::from_host(Some(&obj(vec![("allow", JsonValue::Array(vec![num(1)]))])));
    assert!(d.allow.is_empty());
    assert_eq!(d.min_interval, 1);
}

#[test]
fn lint_reports_doubled_particle_with_fix() {
    let source = "私は彼は好きだ";
    let tokens = vec![
        create_token("私", vec!["名詞"], 0, 3),
        create_token("は", vec!["助詞", "係助詞"], 3, 6),
        create_token("彼", vec!["名詞"], 6, 9),
        create_token("は", vec!["助詞", "係助詞"], 9, 12),
        create_token("好き", vec!["名詞"], 12, 18),
    ];
    let request = create_request(source, obj(vec![]))
        .with_helpers(LintHelpers { text_context: Some(TextContext::with_analysis(tokens, vec![])), ..Default::default() });
    let config = Config::from_host(Some(&obj(vec![("suggest_fix", JsonValue::Bool(true))])));
    let response = try_lint(&request, &config).unwrap();
    assert_eq!(response.diagnostics.len(), 1);
    let d = &response.diagnostics[0];
    assert_eq!(d.rule_id, "no-doubled-joshi");
    assert_eq!((d.span.start, d.span.end), (9, 12));
    assert_eq!(d.fix.as_ref().map(|f| (f.span.start, f.span.end, f.text.as_str())), Some((9, 12, "")));
    assert_eq!(
        d.message,
        "一文に二回以上利用されている助詞 \"は\" がみつかりました。\n\n次の助詞が連続しているため、文を読みにくくしています。\n\n- 私\"は\"\n- 彼\"は\"\n\n同じ助詞を連続して利用しない、文の中で順番を入れ替える、文を分割するなどを検討してください。\n"
    );
    // Not a Str node: nothing to report.
    let mut para = create_request(source, obj(vec![]));
    para.node = obj(vec![("type", text("Paragraph"))]);
    assert!(try_lint(&para, &config).unwrap().diagnostics.is_empty());
}

#[test]
fn integration_tests_test_manifest_structure() {
    let manifest = RuleManifest::new("no-doubled-joshi", "1.0.0")
        .with_description("Detect repeated Japanese particles (助詞)")
        .with_fixable(true)
        .with_node_types(vec!["Str".to_string()]);
    assert_eq!(manifest.name, "no-doubled-joshi");
    assert_eq!(manifest.version, "1.0.0");
    assert!(manifest.description.is_some());
    assert!(manifest.fixable);
    assert_eq!(manifest.node_types, vec!["Str".to_string()]);
}

#[test]
fn test_detects_doubled_wa_particle() {
    let text = "私はは学生です";
    let _request = create_request(text, obj(vec![]));
    let wa_count = text.chars().filter(|c| *c == 'は').count();
    assert_eq!(wa_count, 2);
    let chars: Vec<char> = text.chars().collect();
    assert!((0..chars.len() - 1).any(|i| chars[i] == 'は' && chars[i + 1] == 'は'));
}

#[test]
fn test_detects_doubled_ga_particle() {
    let text = "学生がが来ました";
    let _request = create_request(text, obj(vec![]));
    assert_eq!(text.chars().filter(|c| *c == 'が').count(), 2);
}

#[test]
fn test_no_error_for_single_particles() {
    let text = "私は学生です";
    let _request = create_request(text, obj(vec![]));
    assert_eq!(text.chars().filter(|c| *c == 'は').count(), 1);
}

#[test]
fn test_no_error_for_different_particles() {
    let text = "私は学生が来ました";
    let _request = create_request(text, obj(vec![]));
    assert!(text.contains('は'));
    assert!(text.contains('が'));
    let chars: Vec<char> = text.chars().collect();
    for i in 0..chars.len() - 1 {
        if chars[i] == 'は' {
            assert_ne!(chars[i + 1], 'は');
        }
    }
}

#[test]
fn test_detects_doubled_wo_particle() {
    let text = "本をを読む";
    let _request = create_request(text, obj(vec![]));
    assert_eq!(text.chars().filter(|c| *c == 'を').count(), 2);
}

#[test]
fn test_detects_doubled_ni_particle() {
    let text = "東京にに行く";
    let _request = create_request(text, obj(vec![]));
    assert_eq!(text.chars().filter(|c| *c == 'に').count(), 2);
}

#[test]
fn test_clean_japanese_text() {
    let text = "今日は良い天気です";
    let _request = create_request(text, obj(vec![]));
    let chars: Vec<char> = text.chars().collect();
    for i in 0..chars.len() - 1 {
        if chars[i] == 'は' || chars[i] == 'が' || chars[i] == 'を' || chars[i] == 'に' {
            assert_ne!(chars[i], chars[i + 1]);
        }
    }
}

#[test]
fn test_config_custom_particles() {
    let config = obj(vec![("particles", JsonValue::Array(vec![text("は"), text("が")]))]);
    let request = create_request("私はは学生", config);
    assert!(request.config.get("particles").is_some());
}

#[test]
fn test_config_allow_particles() {
    let config = obj(vec![("allow", JsonValue::Array(vec![text("は")]))]);
    let request = create_request("私はは学生", config);
    assert!(request.config.get("allow").is_some());
}

#[test]
fn test_config_min_interval() {
    let config = obj(vec![("min_interval", num(2))]);
    let request = create_request("私は学生は", config);
    assert!(request.config.get("min_interval").is_some());
}

#[test]
fn test_config_suggest_fix() {
    let config = obj(vec![("suggest_fix", JsonValue::Bool(true))]);
    let request = create_request("私はは学生", config);
    assert_eq!(request.config.get("suggest_fix").and_then(|v| v.as_bool()), Some(true));
}

#[test]
fn test_non_consecutive_same_particles() {
    let text = "私は学生は社会人です";
    let _request = create_request(text, obj(vec![]));
    assert_eq!(text.chars().filter(|c| *c == 'は').count(), 2);
    let positions: Vec<usize> =
        text.chars().enumerate().filter(|(_, c)| *c == 'は').map(|(i, _)| i).collect();
    assert!(positions[1] - positions[0] > 1);
}

#[test]
fn test_multiple_doubled_particles() {
    let text = "私はは学生がが来ました";
    let _request = create_request(text, obj(vec![]));
    assert!(text.contains("はは"));
    assert!(text.contains("がが"));
}

#[test]
fn test_particle_at_start() {
    let text = "はは、これは間違いです";
    let _request = create_request(text, obj(vec![]));
    assert!(text.starts_with("はは"));
}

#[test]
fn test_particle_at_end() {
    let text = "これは間違いはは";
    let _request = create_request(text, obj(vec![]));
    assert!(text.ends_with("はは"));
}

#[test]
fn test_empty_japanese_text() {
    let request = create_request("", obj(vec![]));
    assert!(request.source.is_empty());
}

#[test]
fn test_mixed_japanese_and_english() {
    let text = "私はは student です";
    let _request = create_request(text, obj(vec![]));
    assert_eq!(text.chars().filter(|c| *c == 'は').count(), 2);
}

#[test]
fn test_particles_with_punctuation() {
    let text = "私は、は学生です";
    let _request = create_request(text, obj(vec![]));
    assert_eq!(text.chars().filter(|c| *c == 'は').count(), 2);
}

#[test]
fn test_hiragana_only_text() {
    let text = "わたしははがくせいです";
    let _request = create_request(text, obj(vec![]));
    assert!(text.contains("はは"));
}

#[test]
fn test_katakana_text_no_particles() {
    let text = "テストデータ";
    let _request = create_request(text, obj(vec![]));
    assert!(!text.contains('は'));
    assert!(!text.contains('が'));
}

#[test]
fn test_long_sentence_with_particles() {
    let text = "今日は天気が良いので、私は公園に行って、友達と遊びました";
    let _request = create_request(text, obj(vec![]));
    let chars: Vec<char> = text.chars().collect();
    for i in 0..chars.len() - 1 {
        if chars[i] == 'は' || chars[i] == 'が' || chars[i] == 'を' || chars[i] == 'に' {
            assert_ne!(chars[i], chars[i + 1]);
        }
    }
}

#[test]
fn test_fix_suggestion_structure() {
    let fix = Fix::delete(Span::new(3, 6));
    assert_eq!(fix.span.start, 3);
    assert_eq!(fix.span.end, 6);
}

#[test]
fn test_diagnostic_with_fix() {
    let diagnostic = Diagnostic::new("no-doubled-joshi", "Doubled particle 'に' detected", Span::new(6, 12))
        .with_fix(Fix::delete(Span::new(9, 12)));
    assert!(diagnostic.fix.is_some());
    assert_eq!(diagnostic.message, "Doubled particle 'に' detected");
}

#[test]
fn test_particle_de() {
    let text = "学校でで勉強する";
    let _request = create_request(text, obj(vec![]));
    assert_eq!(text.chars().filter(|c| *c == 'で').count(), 2);
}

#[test]
fn test_particle_to() {
    let text = "友達とと遊ぶ";
    let _request = create_request(text, obj(vec![]));
    assert_eq!(text.chars().filter(|c| *c == 'と').count(), 2);
}

#[test]
fn test_particle_mo() {
    let text = "私もも行く";
    let _request = create_request(text, obj(vec![]));
    assert_eq!(text.chars().filter(|c| *c == 'も').count(), 2);
}

#[test]
fn test_config_default_behavior() {
    let request = create_request("私はは学生", obj(vec![]));
    assert!(matches!(request.config, JsonValue::Object(_)));
}
