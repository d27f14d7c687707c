use chilsonite::registry::{AgentRegistry, AgentEntry, AgentMeta};

fn meta(country: &str) -> AgentMeta {
    AgentMeta {
        ip: "203.0.113.1".to_string(),
        remote_host: "host".to_string(),
        country_code: country.to_string(),
        city: "city".to_string(),
        region: "region".to_string(),
        asn: "AS64500".to_string(),
        asn_org: "org".to_string(),
        os_type: "Linux".to_string(),
        os_version: "6".to_string(),
        hostname: "h".to_string(),
        kernel_version: "6".to_string(),
        username: "u".to_string(),
    }
}

fn entry(id: &str, country: &str, conn: u64) -> AgentEntry {
    AgentEntry { agent_id: id.to_string(), conn, meta: meta(country) }
}

#[test]
fn exact_agent_selector() {
    let mut reg = AgentRegistry::new();
    reg.register(entry("agent_aaa", "JP", 1));
    reg.register(entry("agent_bbb", "US", 2));
    let got = reg.choose_agent(Some("agent_bbb")).expect("present");
    assert_eq!(got, ("agent_bbb".to_string(), 2));
    assert!(reg.choose_agent(Some("agent_ccc")).is_none());
}

#[test]
fn all_and_empty_selectors_pick_any() {
    let mut reg = AgentRegistry::new();
    assert!(reg.choose_agent(Some("all")).is_none());
    reg.register(entry("agent_aaa", "JP", 1));
    assert_eq!(reg.choose_agent(Some("all")).unwrap().0, "agent_aaa");
    assert_eq!(reg.choose_agent(Some("")).unwrap().0, "agent_aaa");
    assert_eq!(reg.choose_agent(None).unwrap().0, "agent_aaa");
}

#[test]
fn unknown_selector_rejects() {
    let mut reg = AgentRegistry::new();
    reg.register(entry("agent_aaa", "JP", 1));
    assert!(reg.choose_agent(Some("whatever")).is_none());
    assert!(reg.choose_agent(Some("agents")).is_none());
}

#[test]
fn country_selector_picks_only_matching() {
    let mut reg = AgentRegistry::new();
    reg.register(entry("agent_jp", "JP", 1));
    reg.register(entry("agent_us", "US", 2));
    for _ in 0..100 {
        let (id, _) = reg.choose_agent(Some("country_JP")).expect("eligible agent");
        assert_eq!(id, "agent_jp");
    }
    assert!(reg.choose_agent(Some("country_DE")).is_none());
}

#[test]
fn country_selector_with_two_codes_is_roughly_uniform() {
    let mut reg = AgentRegistry::new();
    reg.register(entry("agent_jp", "JP", 1));
    reg.register(entry("agent_us", "US", 2));
    let mut jp: u32 = 0;
    for _ in 0..1000 {
        let (id, _) = reg.choose_agent(Some("country_JPUS")).expect("eligible agent");
        if id == "agent_jp" {
            jp += 1;
        } else {
            assert_eq!(id, "agent_us");
        }
    }
    // three standard deviations around an even split over 1000 draws
    assert!(jp >= 452 && jp <= 548, "jp selected {} of 1000", jp);
}

#[test]
fn duplicate_registration_replaces() {
    let mut reg = AgentRegistry::new();
    reg.register(entry("agent_aaa", "JP", 1));
    reg.register(entry("agent_aaa", "US", 9));
    assert_eq!(reg.len(), 1);
    assert_eq!(reg.conn_of(&"agent_aaa".to_string()), Some(9));
    let (id, _) = reg.choose_agent(Some("country_US")).expect("replaced entry");
    assert_eq!(id, "agent_aaa");
}

#[test]
fn remove_unregisters() {
    let mut reg = AgentRegistry::new();
    reg.register(entry("agent_aaa", "JP", 1));
    reg.remove(&"agent_aaa".to_string());
    assert_eq!(reg.len(), 0);
    assert!(!reg.contains_id(&"agent_aaa".to_string()));
    assert!(reg.choose_agent(None).is_none());
}
