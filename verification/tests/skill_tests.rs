use wm_core::skill::{build_skill, split_skill_file, Skill, SkillEngine, SkillHeader, TriggerConfig, TriggerEvent};

fn text_field(map: &serde_yaml::Mapping, key: &str) -> Option<String> {
    map.get(serde_yaml::Value::String(key.to_string()))
        .and_then(|v| v.as_str())
        .map(|s| s.to_string())
}

/// Reads a skill file the way the server does: the frontmatter block is split
/// off by the library, its YAML read here, and the skill built by the library.
fn parse_skill_file(path: &str, content: &str) -> Option<Skill> {
    let (yaml, body) = split_skill_file(content)?;
    let value: serde_yaml::Value = serde_yaml::from_str(&yaml).ok()?;
    let map = value.as_mapping()?.clone();
    let trigger = map
        .get(serde_yaml::Value::String("trigger".to_string()))
        .and_then(|t| t.as_mapping())
        .map(|t| TriggerConfig {
            event: text_field(t, "event").unwrap_or_default(),
            condition: text_field(t, "condition"),
            priority: t
                .get(serde_yaml::Value::String("priority".to_string()))
                .and_then(|p| p.as_u64())
                .map(|p| p as u32),
        });
    let header = SkillHeader {
        name: text_field(&map, "name"),
        title: text_field(&map, "title"),
        description: text_field(&map, "description"),
        trigger,
    };
    build_skill(path, &header, &body)
}

fn header(name: Option<&str>, event: Option<&str>) -> SkillHeader {
    SkillHeader {
        name: name.map(|s| s.to_string()),
        title: None,
        description: None,
        trigger: event.map(|e| TriggerConfig { event: e.to_string(), condition: None, priority: None }),
    }
}

#[test]
fn test_trigger_event_from_str() {
    assert_eq!(TriggerEvent::from_str("source.complete"), TriggerEvent::SourceComplete);
    assert_eq!(TriggerEvent::from_str("page.create"), TriggerEvent::PageCreate);
    assert_eq!(TriggerEvent::from_str("index.rebuild"), TriggerEvent::IndexRebuild);
}

#[test]
fn test_parse_skill_file_flat() {
    let content = r#"---
name: wm-test
description: Test skill
trigger:
  event: source.complete
  priority: 1
---

# Steps

1. Do this
2. Do that
"#;
    let skill = parse_skill_file("wm-test.md", content).unwrap();
    assert_eq!(skill.name, "wm-test");
    assert_eq!(skill.description, "Test skill");
    assert!(skill.trigger.is_some());
    assert_eq!(skill.trigger.as_ref().unwrap().event, "source.complete");
    assert!(skill.instructions.contains("Do this"));
}

#[test]
fn test_parse_skill_file_subdirectory() {
    let content = r#"---
name: wm-init
description: Init skill
---

# Steps

1. Init
"#;
    let skill = parse_skill_file("skills/wm-init/SKILL.md", content).unwrap();
    assert_eq!(skill.name, "wm-init");
    assert_eq!(skill.description, "Init skill");
}

#[test]
fn test_parse_skill_file_subdirectory_fallback() {
    let content = r#"---
description: Fallback name test
---

# Steps

1. Test
"#;
    let skill = parse_skill_file("skills/wm-fallback/SKILL.md", content).unwrap();
    assert_eq!(skill.name, "wm-fallback");
}

#[test]
fn trigger_event_aliases_and_default() {
    assert_eq!(TriggerEvent::from_str("Session-Start"), TriggerEvent::SessionStart);
    assert_eq!(TriggerEvent::from_str("page_update"), TriggerEvent::PageUpdate);
    assert_eq!(TriggerEvent::from_str("whatever"), TriggerEvent::SourceComplete);
}

#[test]
fn skill_file_without_frontmatter_is_rejected() {
    assert!(parse_skill_file("x.md", "# Just text").is_none());
}

#[test]
fn file_stem_names_a_flat_skill() {
    let skill = build_skill("dir/my-skill.md", &header(None, None), "body").unwrap();
    assert_eq!(skill.name, "my-skill");
    assert_eq!(skill.title, "");
    assert_eq!(skill.file_path, "dir/my-skill.md");
}

#[test]
fn engine_insert_replaces_and_get_reads_back() {
    let mut engine = SkillEngine::new();
    engine.insert(build_skill("a.md", &header(Some("alpha"), Some("page.create")), "one").unwrap());
    engine.insert(build_skill("b.md", &header(Some("beta"), None), "two").unwrap());
    engine.insert(build_skill("c.md", &header(Some("alpha"), Some("page_create")), "three").unwrap());
    assert_eq!(engine.list().len(), 2);
    assert_eq!(engine.get("alpha").unwrap().instructions, "three");
    assert_eq!(engine.get("beta").unwrap().instructions, "two");
    assert!(engine.get("gamma").is_none());
    assert_eq!(engine.triggered_by(&TriggerEvent::PageCreate), vec!["alpha".to_string()]);
    engine.clear();
    assert!(engine.list().is_empty());
}

#[test]
fn fire_event_emits_one_audit_per_triggered_skill() {
    let mut engine = SkillEngine::new();
    engine.insert(build_skill("a.md", &header(Some("alpha"), Some("index.rebuild")), "x").unwrap());
    engine.insert(build_skill("b.md", &header(Some("beta"), Some("page.create")), "y").unwrap());
    let seen = std::cell::RefCell::new(Vec::new());
    let emit = |tool: &str, action: &str, status: &str, _ms: i64, _err: Option<String>, pages: Vec<String>| {
        seen.borrow_mut().push((tool.to_string(), action.to_string(), status.to_string(), pages));
    };
    engine.fire_event(&TriggerEvent::IndexRebuild, &emit);
    let seen = seen.into_inner();
    assert_eq!(seen.len(), 1);
    assert_eq!(seen[0].0, "wm_skill.alpha");
    assert_eq!(seen[0].1, "trigger");
    assert_eq!(seen[0].2, "ok");
    assert_eq!(seen[0].3, vec!["alpha".to_string()]);
}

#[test]
fn tool_specs_name_each_skill() {
    let mut engine = SkillEngine::new();
    let mut h = header(Some("alpha"), None);
    h.description = Some("Does alpha".to_string());
    engine.insert(build_skill("a.md", &h, "step one").unwrap());
    let specs = engine.tool_specs();
    assert_eq!(specs.len(), 1);
    assert_eq!(specs[0].name, "wm_skill.alpha");
    assert_eq!(specs[0].description, "Does alpha");
    assert_eq!(specs[0].skill, "alpha");
    assert_eq!(specs[0].instructions, "step one");
}
