use acme_types::certificate::CertificateIdentifier;
use acme_types::error::Error;
use acme_types::identifier::Identifier;
use acme_types::ip::IpAddr;
use acme_types::order::{Authorization, AuthorizationState, AuthorizationStatus, NewOrder};
use acme_types::problem::{Problem, Subproblem};
use serde_json::Value;

fn text(value: &Value) -> Option<String> {
    value.as_str().map(str::to_owned)
}

fn read_problem(json: &str) -> Problem {
    let value = serde_json::from_str::<Value>(json).unwrap();
    let subproblems = value["subproblems"].as_array().cloned().unwrap_or_default();
    Problem {
        kind: text(&value["type"]),
        detail: text(&value["detail"]),
        status: None,
        subproblems: subproblems
            .iter()
            .map(|subproblem| Subproblem {
                identifier: text(&subproblem["identifier"]["value"]).map(Identifier::Dns),
                kind: text(&subproblem["type"]),
                detail: text(&subproblem["detail"]),
            })
            .collect(),
    }
}

// https://www.rfc-editor.org/rfc/rfc8555#section-6.7.1
#[test]
fn subproblems() {
    const PROBLEM: &str = r#"{
        "type": "urn:ietf:params:acme:error:malformed",
        "detail": "Some of the identifiers requested were rejected",
        "subproblems": [
            {
                "type": "urn:ietf:params:acme:error:malformed",
                "detail": "Invalid underscore in DNS name \"_example.org\"",
                "identifier": {
                    "type": "dns",
                    "value": "_example.org"
                }
            },
            {
                "type": "urn:ietf:params:acme:error:rejectedIdentifier",
                "detail": "This CA will not issue for \"example.net\"",
                "identifier": {
                    "type": "dns",
                    "value": "example.net"
                }
            }
        ]
    }"#;

    let obj = read_problem(PROBLEM);
    assert_eq!(
        obj.kind,
        Some("urn:ietf:params:acme:error:malformed".into())
    );
    assert_eq!(
        obj.detail,
        Some("Some of the identifiers requested were rejected".into())
    );

    let subproblems = &obj.subproblems;
    assert_eq!(subproblems.len(), 2);

    let first_subproblem = subproblems.first().unwrap();
    assert_eq!(
        first_subproblem.identifier,
        Some(Identifier::Dns("_example.org".into()))
    );
    assert_eq!(
        first_subproblem.kind,
        Some("urn:ietf:params:acme:error:malformed".into())
    );
    assert_eq!(
        first_subproblem.detail,
        Some(r#"Invalid underscore in DNS name "_example.org""#.into())
    );

    let second_subproblem = subproblems.get(1).unwrap();
    assert_eq!(
        second_subproblem.identifier,
        Some(Identifier::Dns("example.net".into()))
    );
    assert_eq!(
        second_subproblem.kind,
        Some("urn:ietf:params:acme:error:rejectedIdentifier".into())
    );
    assert_eq!(
        second_subproblem.detail,
        Some(r#"This CA will not issue for "example.net""#.into())
    );

    let expected_display = "\
    API error: Some of the identifiers requested were rejected (urn:ietf:params:acme:error:malformed): \
    2 subproblems: \
    for \"_example.org\": Invalid underscore in DNS name \"_example.org\" (urn:ietf:params:acme:error:malformed), \
    for \"example.net\": This CA will not issue for \"example.net\" (urn:ietf:params:acme:error:rejectedIdentifier)";
    assert_eq!(obj.to_string(), expected_display);
}

#[test]
fn problem_texts() {
    let mut problem = Problem {
        kind: None,
        detail: None,
        status: None,
        subproblems: Vec::new(),
    };
    assert_eq!(problem.to_string(), "API error");
    problem.kind = Some("urn:a".to_owned());
    assert_eq!(problem.to_string(), "API error (urn:a)");
    problem.detail = Some("no".to_owned());
    assert_eq!(problem.to_string(), "API error: no (urn:a)");
    let subproblem = Subproblem {
        identifier: None,
        kind: None,
        detail: Some("b".to_owned()),
    };
    assert_eq!(subproblem.to_string(), ": b");
    problem.subproblems = vec![subproblem; 12];
    assert_eq!(
        problem.to_string(),
        format!(
            "API error: no (urn:a): 12 subproblems: {}",
            vec![": b"; 12].join(", ")
        )
    );
    assert!(matches!(Error::from(problem), Error::Api(_)));
}

#[test]
fn answers_and_problems() {
    for status in [100, 199, 200, 204, 299, 300, 399] {
        assert_eq!(
            Problem::from_response(status, b"body".to_vec()),
            Ok(b"body".to_vec())
        );
        let status = http::StatusCode::from_u16(status).unwrap();
        assert!(status.is_informational() || status.is_success() || status.is_redirection());
    }
    for status in [400, 404, 499, 500, 599, 600, 999] {
        assert_eq!(
            Problem::from_response(status, b"body".to_vec()),
            Err(b"body".to_vec())
        );
        let status = http::StatusCode::from_u16(status).unwrap();
        assert!(!(status.is_informational() || status.is_success() || status.is_redirection()));
    }
}

#[test]
fn identifier_texts() {
    let dns = Identifier::Dns("example.com".to_owned());
    assert_eq!(dns.authorized(false).to_string(), "example.com");
    assert_eq!(dns.authorized(true).to_string(), "*.example.com");
    for (identifier, text) in [
        (Identifier::Ip(IpAddr::V4([127, 0, 0, 1])), "127.0.0.1"),
        (Identifier::PermanentIdentifier("a".to_owned()), "a"),
        (Identifier::HardwareModule("b".to_owned()), "b"),
    ] {
        assert_eq!(identifier.authorized(false).to_string(), text);
        assert_eq!(identifier.authorized(true).to_string(), text);
    }
}

fn v6(groups: [u16; 8]) -> String {
    let mut octets = [0; 16];
    for (i, group) in groups.iter().enumerate() {
        octets[2 * i..2 * i + 2].copy_from_slice(&group.to_be_bytes());
    }
    IpAddr::V6(octets).to_string()
}

#[test]
fn address_texts() {
    assert_eq!(IpAddr::V4([255, 10, 0, 9]).to_string(), "255.10.0.9");
    assert_eq!(v6([0; 8]), "::");
    assert_eq!(v6([0, 0, 0, 0, 0, 0, 0, 1]), "::1");
    assert_eq!(v6([1, 0, 0, 0, 0, 0, 0, 0]), "1::");
    assert_eq!(v6([0x2001, 0xDB8, 0, 0, 0, 0, 0, 1]), "2001:db8::1");
    assert_eq!(v6([1, 2, 3, 4, 5, 6, 7, 8]), "1:2:3:4:5:6:7:8");
    // One zero group is not abbreviated; of two runs the first is, unless the second is longer.
    assert_eq!(v6([1, 0, 3, 4, 5, 6, 7, 8]), "1:0:3:4:5:6:7:8");
    assert_eq!(v6([1, 0, 0, 4, 5, 0, 0, 8]), "1::4:5:0:0:8");
    assert_eq!(v6([1, 0, 0, 4, 0, 0, 0, 8]), "1:0:0:4::8");
    // An address that maps one of version four shows it.
    assert_eq!(v6([0, 0, 0, 0, 0, 0xFFFF, 0x7F00, 1]), "::ffff:127.0.0.1");
    assert_eq!(v6([0, 0, 0, 0, 0, 0, 0x7F00, 1]), "::7f00:1");
}

#[test]
fn address_octets() {
    assert_eq!(
        IpAddr::from_octets(&[127, 0, 0, 1]).unwrap().to_string(),
        "127.0.0.1"
    );
    assert_eq!(IpAddr::from_octets(&[0; 16]).unwrap().to_string(), "::");
    assert!(IpAddr::from_octets(&[]).is_none());
    assert!(IpAddr::from_octets(&[0; 5]).is_none());
    assert!(IpAddr::from_octets(&[0; 17]).is_none());
    assert!(!IpAddr::V4([0; 4]).same(&IpAddr::V6([0; 16])));
}

#[test]
fn order_builders() {
    let identifiers = [Identifier::Dns("example.com".to_owned())];
    let order = NewOrder::new(&identifiers);
    assert_eq!(order.identifiers(), &identifiers);
    assert!(order.replaces.is_none() && order.profile.is_none());
    let identifier = CertificateIdentifier::parse("a.b").unwrap();
    let order = order.replaces(identifier.clone()).profile("short");
    assert_eq!(order.replaces, Some(identifier));
    assert_eq!(order.profile, Some("short"));
    assert_eq!(order.identifiers(), &identifiers);
}

#[test]
fn authorizations() {
    let authorization = Authorization::new("https://example.com/acme/authz/1".to_owned());
    assert_eq!(authorization.url, "https://example.com/acme/authz/1");
    assert!(authorization.state.is_none());

    let state = AuthorizationState {
        identifier: Identifier::Dns("example.com".to_owned()),
        status: AuthorizationStatus::Valid,
        challenges: Vec::new(),
        wildcard: true,
    };
    assert_eq!(state.identifier().to_string(), "*.example.com");
}
