use mqtt_broker::enums::jwt::JwtType;
use mqtt_broker::enums::protocol::ProtocolType;
use mqtt_broker::enums::role::RoleType;
use mqtt_broker::models::claims::{lifetime_of, Claims};
use mqtt_broker::models::config::{Config, Middleware, MqttConfig};
use mqtt_broker::models::listener::{
    has_port, listeners_to_start, ListenerConfig, StopListener, TlsConfig,
};
use mqtt_broker::models::login::{Login, Token};
use mqtt_broker::models::user::User;
use mqtt_broker::services::topic_levels::split_topic;

fn listener(name: &str, protocol: ProtocolType, port: u16) -> ListenerConfig {
    ListenerConfig { name: name.to_string(), protocol, host: "0.0.0.0".to_string(), port, tls: None }
}

#[test]
fn names_of_kinds_roles_and_protocols() {
    assert_eq!(JwtType::AccessToken.as_str(), "access_token");
    assert_eq!(JwtType::RefreshToken.as_str(), "refresh_token");
    assert_eq!(JwtType::AccessToken.to_string(), "access_token".to_string());
    assert_eq!(JwtType::RefreshToken.to_string(), "refresh_token".to_string());
    assert_eq!(RoleType::Admin.as_str(), "admin");
    assert_eq!(RoleType::User.as_str(), "user");
    assert_eq!(RoleType::Admin.to_string(), "admin".to_string());
    assert_eq!(RoleType::User.to_string(), "user".to_string());
    assert_eq!(ProtocolType::Tcp.as_str(), "tcp");
    assert_eq!(ProtocolType::Tls.as_str(), "tls");
    assert_eq!(ProtocolType::Ws.as_str(), "ws");
    assert_eq!(ProtocolType::Wss.as_str(), "wss");
}

#[test]
fn claims_are_issued_for_their_lifetime() {
    assert_eq!(lifetime_of(&JwtType::AccessToken), 3600);
    assert_eq!(lifetime_of(&JwtType::RefreshToken), 6200);
    let access = Claims::issue("42".to_string(), &RoleType::Admin, &JwtType::AccessToken, 1_000);
    assert_eq!(access.sub, "42");
    assert_eq!(access.role, "admin");
    assert_eq!(access.token_type, "access_token");
    assert_eq!(access.iat, 1_000);
    assert_eq!(access.exp, 4_600);
    let refresh = Claims::issue("7".to_string(), &RoleType::User, &JwtType::RefreshToken, 0);
    assert_eq!(refresh.role, "user");
    assert_eq!(refresh.token_type, "refresh_token");
    assert_eq!(refresh.exp, 6_200);
}

#[test]
fn only_plain_tcp_and_websocket_listeners_are_started() {
    let listeners = vec![
        listener("tcp", ProtocolType::Tcp, 1883),
        listener("tls", ProtocolType::Tls, 8883),
        listener("ws", ProtocolType::Ws, 8083),
        listener("wss", ProtocolType::Wss, 8084),
    ];
    assert_eq!(listeners_to_start(&listeners, &vec![]), vec![0, 2]);
    assert_eq!(listeners_to_start(&listeners, &vec![1883]), vec![2]);
    assert_eq!(listeners_to_start(&listeners, &vec![8083, 1883]), Vec::<usize>::new());
    assert_eq!(listeners_to_start(&vec![], &vec![1883]), Vec::<usize>::new());
}

#[test]
fn a_port_is_started_once() {
    let listeners = vec![
        listener("tls first", ProtocolType::Tls, 1883),
        listener("tcp", ProtocolType::Tcp, 1883),
        listener("ws on the same port", ProtocolType::Ws, 1883),
        listener("other", ProtocolType::Ws, 8083),
        listener("tcp again", ProtocolType::Tcp, 1883),
    ];
    assert_eq!(listeners_to_start(&listeners, &vec![]), vec![1, 3]);
    assert!(has_port(&vec![1, 2, 3], 2));
    assert!(!has_port(&vec![1, 2, 3], 4));
    assert!(!has_port(&vec![], 0));
}

#[test]
fn plain_data_holds_its_fields() {
    let config = Config {
        middleware: Middleware {
            model_path: "m".to_string(),
            policy_path: "p".to_string(),
            secret: "s".to_string(),
        },
        mqtt: MqttConfig {
            listeners: vec![ListenerConfig {
                name: "secure".to_string(),
                protocol: ProtocolType::Tls,
                host: "h".to_string(),
                port: 8883,
                tls: Some(TlsConfig { cert: "c".to_string(), key: "k".to_string(), ca: None }),
            }],
        },
    };
    assert_eq!(config.mqtt.listeners[0].port, 8883);
    assert_eq!(config.middleware.secret, "s");
    assert_eq!(StopListener { port: 1883 }.port, 1883);
    let user =
        User { username: "u".to_string(), password_hash: "h".to_string(), role: "admin".to_string() };
    assert_eq!(user.clone().username, "u");
    let token = Token { access_token: "a".to_string(), refresh_token: "r".to_string() };
    assert_eq!(token.refresh_token, "r");
    let login = Login { username: "u".to_string(), password: "p".to_string() };
    assert_eq!(login.password, "p");
}

#[test]
fn topics_are_cut_at_every_slash() {
    let levels = |t: &str| -> Vec<String> {
        split_topic(t).into_iter().map(|l| String::from_utf8(l).unwrap()).collect()
    };
    assert_eq!(levels("a/b/c"), vec!["a", "b", "c"]);
    assert_eq!(levels("a"), vec!["a"]);
    assert_eq!(levels(""), vec![""]);
    assert_eq!(levels("/"), vec!["", ""]);
    assert_eq!(levels("a//b"), vec!["a", "", "b"]);
    assert_eq!(levels("/a/"), vec!["", "a", ""]);
    assert_eq!(levels("grüße/日本"), vec!["grüße", "日本"]);
}
