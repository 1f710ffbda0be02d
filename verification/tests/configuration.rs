use nostr_sdk::Keys;
use relay_builder::config::{DatabaseConfig, RelayConfig, ScopeConfig, WebSocketConfig};
use relay_builder::cpu_affinity::{allow_all_but_current_thread, pin_current_thread_to};
use relay_builder::error::Error;
use relay_builder::global_config::{
    get_max_limit, get_max_limit_or_default, get_max_subscriptions,
    get_max_subscriptions_or_default, set_max_limit, set_max_subscriptions, GlobalConfig,
};
use relay_builder::global_metrics::{
    get_subscription_metrics_handler, set_subscription_metrics_handler, MetricsSlot,
};
use relay_builder::handlers::RelayInfo;
use relay_builder::middleware_chain::{process_outbound_chain, Chain};
use relay_builder::metrics::NoOpMetricsHandler;
use relay_builder::protocol::Scope;
use relay_builder::relay_builder::{HtmlOption, Layer, RelayBuilder};
use relay_builder::settings::{
    effective_rate, env_or, env_parse, non_empty, positive, rate_text,
};

const SECRET: &str = "0000000000000000000000000000000000000000000000000000000000000003";

fn config() -> RelayConfig<()> {
    RelayConfig::new(
        "wss://relay.example.com",
        DatabaseConfig::Path("./db".to_string()),
        Keys::generate(),
    )
}

fn info() -> RelayInfo {
    RelayInfo {
        name: "Name".to_string(),
        description: "Words".to_string(),
        pubkey: "key".to_string(),
        contact: "someone".to_string(),
        supported_nips: vec![1, 42],
        software: "soft".to_string(),
        version: "2".to_string(),
        icon: None,
    }
}

#[test]
fn scopes_are_found_by_host() {
    assert_eq!(ScopeConfig::default().resolve_scope(Some("a.example.com")), Scope::Default);
    let by_subdomain = ScopeConfig::subdomain(2);
    assert_eq!(
        by_subdomain.resolve_scope(Some("a.example.com:80")),
        Scope::named("a").unwrap()
    );
    assert_eq!(by_subdomain.resolve_scope(Some("example.com")), Scope::Default);
    assert_eq!(by_subdomain.resolve_scope(None), Scope::Default);
    let fixed = ScopeConfig::fixed(Scope::named("one").unwrap());
    assert_eq!(fixed.resolve_scope(Some("b.example.com")), Scope::named("one").unwrap());
    assert_eq!(fixed.resolve_scope(None), Scope::named("one").unwrap());
}

#[test]
fn a_configuration_is_built_up() {
    let c = config()
        .with_subscription_limits(10, 200)
        .with_max_connections(7)
        .with_max_connection_time(60)
        .with_subdomains(3);
    assert_eq!(c.max_subscriptions, 10);
    assert_eq!(c.max_limit, 200);
    assert_eq!(c.websocket_config.max_connections, Some(7));
    assert_eq!(c.websocket_config.max_connection_time, Some(60));
    assert!(matches!(c.scope_config, ScopeConfig::Subdomain { base_domain_parts: 3 }));
    assert_eq!(c.calculate_channel_size(), 10 * (200 + 5));
    let c = config().with_max_subscriptions(2).with_max_limit(3);
    assert_eq!(c.calculate_channel_size(), 16);
    let c = config().with_websocket_config(WebSocketConfig {
        max_connections: Some(1),
        max_connection_time: None,
    });
    assert_eq!(c.websocket_config.max_connections, Some(1));
    let c = config().with_subdomains(3).with_scope_config(ScopeConfig::Disabled);
    assert!(matches!(c.scope_config, ScopeConfig::Disabled));
}

#[test]
fn the_parts_of_the_domain_are_counted_from_the_url() {
    let parts = |url: &str| match config().with_subdomains_from_url(url).scope_config {
        ScopeConfig::Subdomain { base_domain_parts } => base_domain_parts,
        _ => panic!("Expected subdomains"),
    };
    assert_eq!(parts("wss://example.com"), 2);
    assert_eq!(parts("wss://relay.example.co.uk/path"), 4);
    assert_eq!(parts("ws://localhost:8080"), 2);
    assert_eq!(parts("ws://127.0.0.1:8080"), 2);
    assert_eq!(parts("no url"), 2);
}

#[test]
fn the_usual_layers_of_a_relay() {
    let mut c = config().with_subscription_limits(50, 500);
    c.enable_auth = true;
    let plan = RelayBuilder::new(c).metrics().build_with(2).unwrap();
    assert_eq!(
        plan.layers,
        vec![
            Layer::Relay,
            Layer::Custom(0),
            Layer::Custom(1),
            Layer::Metrics,
            Layer::Auth,
            Layer::ErrorHandling,
            Layer::Logger,
        ]
    );
    assert_eq!(plan.max_subscriptions, Some(50));
    assert_eq!(plan.max_limit, 500);
    assert_eq!(plan.channel_size, 50 * 505);
}

#[test]
fn layers_that_are_not_wanted_do_nothing() {
    let plan = RelayBuilder::new(config().with_subscription_limits(0, 10)).build().unwrap();
    assert_eq!(
        plan.layers,
        vec![
            Layer::Relay,
            Layer::Identity,
            Layer::Identity,
            Layer::ErrorHandling,
            Layer::Logger,
        ]
    );
    assert_eq!(plan.max_subscriptions, None);
    let plan = RelayBuilder::new(config()).without_logger().build().unwrap();
    assert_eq!(plan.layers[4], Layer::Identity);
    assert_eq!(plan.layers[3], Layer::ErrorHandling);
    let plan = RelayBuilder::new(config()).without_error_handling().build().unwrap();
    assert_eq!(plan.layers[3], Layer::Identity);
    let plan = RelayBuilder::new(config()).metrics().without_defaults().build().unwrap();
    assert_eq!(
        plan.layers,
        vec![
            Layer::Relay,
            Layer::Metrics,
            Layer::Identity,
            Layer::Identity,
            Layer::Identity,
        ]
    );
    let other = RelayBuilder::new(config()).metrics().subscription_metrics().custom_state();
    assert!(!other.has_subscription_metrics);
    assert_eq!(other.build().unwrap().layers[1], Layer::Identity);
}

#[test]
fn a_relay_needs_a_store() {
    let mut c = config();
    c.database = None;
    match RelayBuilder::new(c).build() {
        Err(Error::Internal { message }) => {
            assert_eq!(message, "Database configuration is required")
        }
        _ => panic!("Expected an error"),
    }
}

#[test]
fn pages_of_a_relay() {
    let builder = RelayBuilder::new(config()).relay_info(info());
    assert_eq!(builder.html_option, HtmlOption::Default);
    let page = builder.html_option.page(&info()).unwrap();
    assert!(page.contains("Name"));
    assert!(page.contains("NIP-42"));
    assert!(builder.without_html().html_option.page(&info()).is_none());
    assert_eq!(
        RelayBuilder::new(config()).custom_html().html_option,
        HtmlOption::Custom
    );
    assert_eq!(
        RelayBuilder::new(config()).html(HtmlOption::Disabled).html_option,
        HtmlOption::Disabled
    );
}

#[test]
fn settings_are_read_from_texts() {
    assert_eq!(env_parse(Some("8080"), 1, 65535), 8080);
    assert_eq!(env_parse(Some("70000"), 1, 65535), 1);
    assert_eq!(env_parse(Some("x"), 1, 65535), 1);
    assert_eq!(env_parse(None, 1, 65535), 1);
    assert_eq!(env_or(Some("a".to_string()), "b"), "a");
    assert_eq!(env_or(None, "b"), "b");
    assert_eq!(non_empty(Some(String::new())), None);
    assert_eq!(non_empty(Some("k".to_string())), Some("k".to_string()));
    assert_eq!(positive(0), None);
    assert_eq!(positive(4), Some(4));
    assert_eq!(effective_rate(0), u32::MAX);
    assert_eq!(effective_rate(20), 20);
    assert_eq!(rate_text(0), "unlimited");
    assert_eq!(rate_text(20), "20");
}

#[test]
fn limits_are_shared() {
    let mut shared = GlobalConfig::new();
    assert_eq!(get_max_subscriptions(&shared), None);
    assert_eq!(get_max_subscriptions_or_default(&shared, 9), 9);
    set_max_subscriptions(&mut shared, 5);
    assert_eq!(get_max_subscriptions(&shared), Some(5));
    assert_eq!(get_max_subscriptions_or_default(&shared, 9), 5);
    assert_eq!(get_max_limit_or_default(&shared, 9), 9);
    set_max_limit(&mut shared, 0);
    assert_eq!(get_max_limit_or_default(&shared, 9), get_max_limit(&shared).unwrap_or(9));
}

#[test]
fn the_handler_of_metrics_is_kept() {
    let mut slot: MetricsSlot<NoOpMetricsHandler> = MetricsSlot::new();
    assert!(get_subscription_metrics_handler(&slot).is_none());
    set_subscription_metrics_handler(&mut slot, NoOpMetricsHandler);
    assert!(get_subscription_metrics_handler(&slot).is_some());
}

#[test]
fn the_cpus_of_a_thread() {
    assert_eq!(pin_current_thread_to(3), vec![3]);
    assert_eq!(allow_all_but_current_thread(5, &[1, 3, 9]), vec![0, 2, 4]);
    assert_eq!(allow_all_but_current_thread(0, &[]), Vec::<usize>::new());
}

#[test]
fn the_core_has_the_rules_and_the_limits() {
    let config = || {
        let database: DatabaseConfig<()> = DatabaseConfig::Path("./db".to_string());
        RelayConfig::new("wss://relay.example.com", database, Keys::parse(SECRET).unwrap())
    };
    let builder = RelayBuilder::new(config().with_subscription_limits(0, 77)).event_processor("rules");
    let core = builder.relay_middleware();
    assert_eq!(*core.processor(), "rules");
    assert_eq!(
        core.relay_pubkey.bytes,
        Keys::parse(SECRET).unwrap().public_key().to_bytes()
    );
    assert_eq!(core.max_limit, 77);
    assert_eq!(core.max_subscriptions, None);
    let again = RelayBuilder::new(config()).event_processor("rules").custom_state().relay_middleware();
    assert_eq!(format!("{:?}", again.processor()), "DefaultRelayProcessor");
    assert_eq!(again.max_subscriptions, Some(50));
}

#[test]
fn messages_pass_through_the_layers_of_a_relay() {
    let plan = RelayBuilder::new(config()).build_with(2).unwrap();
    let count = plan.layers.len();
    let outward: Vec<usize> = (0..count).collect();
    let inward: Vec<usize> = (0..count).rev().collect();
    assert!(count > 3);
    assert_eq!(plan.inbound_route(), inward);
    assert_eq!(plan.disconnect_route(), outward);
    assert_eq!(plan.outbound_route(0), outward);
    assert_eq!(plan.outbound_route(2), (2..count).collect::<Vec<usize>>());
    assert_eq!(plan.outbound_route(count), Vec::<usize>::new());
    let (seen, result) = process_outbound_chain(&plan, 1, Some(Vec::new()), |position, seen| {
        let mut seen: Vec<usize> = seen.unwrap();
        seen.push(position);
        (Some(seen), Ok(()))
    });
    assert!(result.is_ok());
    assert_eq!(seen.unwrap(), (1..count).collect::<Vec<usize>>());
}

#[test]
fn the_host_of_the_relay_has_the_default_scope() {
    let c = config().with_max_limit(9).with_subdomains_from_url("wss://relay.example.co.uk:444/x");
    assert_eq!(c.max_limit, 9);
    assert_eq!(c.relay_url, "wss://relay.example.com");
    let scope = |host: &str| c.scope_config.resolve_scope(Some(host));
    assert_eq!(scope("relay.example.co.uk"), Scope::Default);
    assert_eq!(scope("tenant.relay.example.co.uk"), Scope::named("tenant").unwrap());
    assert_eq!(scope("tenant.relay.example.co.uk:8080"), Scope::named("tenant").unwrap());
    // A label before three numbers makes an address of them.
    let c = config().with_subdomains_from_url("relay://2.3.4/");
    assert_eq!(c.scope_config.resolve_scope(Some("1.2.3.4")), Scope::Default);
    assert_eq!(c.scope_config.resolve_scope(Some("a.2.3.4")), Scope::named("a").unwrap());
}
