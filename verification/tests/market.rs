use options_desk::api::{base_url, rest_url, worker_base, AuthResponse, AuthUser, SupabaseError};
use options_desk::calendar::{parse_date, Date};
use options_desk::glossary::{lookup, terms};
use options_desk::market::{atm_contract, live_expiries, live_strikes, OptionMetaEntry};

fn d(s: &str) -> Date {
    parse_date(s).unwrap()
}

fn entry(expiry: &str, option_type: &str, strike: i64) -> OptionMetaEntry {
    OptionMetaEntry { expiry: expiry.into(), option_type: option_type.into(), strike: strike * 1_000_000 }
}

fn meta() -> Vec<OptionMetaEntry> {
    vec![
        entry("2025-03-21", "call", 150),
        entry("2025-03-21", "call", 140),
        entry("2025-03-21", "call", 150),
        entry("2025-03-21", "put", 130),
        entry("2025-01-17", "call", 100),
        entry("2025-02-21", "put", 145),
        entry("2025-02-21", "call", 148),
        entry("2025-02-21", "call", 152),
        entry("garbage", "call", 1),
    ]
}

#[test]
fn strikes_are_distinct_and_ascending() {
    assert_eq!(live_strikes(&meta(), "2025-03-21", "call"), vec![140_000_000, 150_000_000]);
    assert_eq!(live_strikes(&meta(), "2025-03-21", "put"), vec![130_000_000]);
    assert!(live_strikes(&meta(), "2026-01-16", "call").is_empty());
}

#[test]
fn expired_contracts_are_not_offered() {
    assert_eq!(live_expiries(&meta(), d("2025-02-01")), vec!["2025-02-21".to_string(), "2025-03-21".to_string()]);
    // Today itself is still live.
    assert_eq!(live_expiries(&meta(), d("2025-01-17"))[0], "2025-01-17");
    assert!(live_expiries(&meta(), d("2026-01-01")).is_empty());
}

#[test]
fn at_the_money_contract_is_the_nearest_call_of_the_first_expiry() {
    assert_eq!(
        atm_contract(&meta(), 150_000_000, d("2025-02-01")),
        Some(("2025-02-21".to_string(), "call", 148_000_000))
    );
    assert_eq!(
        atm_contract(&meta(), 151_000_000, d("2025-02-01")),
        Some(("2025-02-21".to_string(), "call", 152_000_000))
    );
    assert_eq!(atm_contract(&meta(), 150_000_000, d("2026-01-01")), None);
    let puts_only = vec![entry("2025-02-21", "put", 145)];
    assert_eq!(atm_contract(&puts_only, 150_000_000, d("2025-02-01")), None);
}

#[test]
fn service_urls_are_normalised() {
    assert_eq!(base_url("https://x.supabase.co/"), "https://x.supabase.co");
    assert_eq!(base_url("https://x.supabase.co/rest/v1/"), "https://x.supabase.co");
    assert_eq!(base_url("https://x.supabase.co//rest/v1"), "https://x.supabase.co");
    assert_eq!(rest_url("https://x.supabase.co/rest/v1", "positions"), "https://x.supabase.co/rest/v1/positions");
    assert_eq!(worker_base("http://localhost:8787//"), "http://localhost:8787");
    assert_eq!(worker_base("http://localhost:8787"), "http://localhost:8787");
}

#[test]
fn auth_replies_carry_their_fields() {
    let r = AuthResponse {
        access_token: "tok".into(),
        user: AuthUser { id: "u1".into(), email: Some("a@b.c".into()) },
    };
    assert_eq!(r.user.id, "u1");
    let e = SupabaseError { message: "Invalid login".into() };
    assert_eq!(e.message, "Invalid login");
}

#[test]
fn glossary_entries_are_found_by_key() {
    let call = lookup("call").unwrap();
    assert_eq!(call.key, "call");
    assert_eq!(call.title, "Call option");
    assert!(lookup("no-such-term").is_none());
    let all = terms();
    assert_eq!(all.len(), 48);
    for t in &all {
        assert_eq!(lookup(t.key).unwrap().title, t.title);
    }
}

#[test]
fn glossary_keys_are_distinct_and_matched_exactly() {
    let all = terms();
    for (i, a) in all.iter().enumerate() {
        for b in &all[i + 1..] {
            assert_ne!(a.key, b.key);
        }
    }
    assert_eq!(lookup("delta").unwrap().title, "Delta — price sensitivity");
    assert!(lookup("Delta").is_none());
    assert!(lookup("").is_none());
}
