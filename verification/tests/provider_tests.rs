use tudu::providers::notion::{LookupPlan, NotionError, NotionProvider};
use tudu::providers::IssueProvider;
use tudu::{Config, NotionConfig};

fn provider() -> NotionProvider {
    NotionProvider::new(&NotionConfig {
        database_id: "db-1".to_string(),
    })
}

/// A stand-in transport that counts how often it is asked to query.
struct CountingTransport {
    calls: usize,
    reply: (u16, bool),
}

impl CountingTransport {
    fn query(&mut self, _number: i32) -> (u16, bool) {
        self.calls += 1;
        self.reply
    }
}

/// Drive one lookup the way a transport-owning caller does: follow the plan,
/// query only when the plan says so, and interpret the reply.
fn lookup_with(
    p: &NotionProvider,
    t: &mut CountingTransport,
    id: &str,
) -> Result<bool, NotionError> {
    match p.plan_lookup(id) {
        LookupPlan::Respond(b) => Ok(b),
        LookupPlan::Query(n) => {
            let (status, nonempty) = t.query(n);
            NotionProvider::interpret_response(status, nonempty)
        }
    }
}

#[test]
fn numeric_suffix_is_queried() {
    let p = provider();
    assert_eq!(p.plan_lookup("TASK-123"), LookupPlan::Query(123));
    assert_eq!(p.plan_lookup("BUG-0"), LookupPlan::Query(0));
}

#[test]
fn suffix_after_first_dash_is_used() {
    let p = provider();
    assert_eq!(p.plan_lookup("X--5"), LookupPlan::Query(-5));
}

#[test]
fn missing_dash_answers_false_without_query() {
    let p = provider();
    let mut t = CountingTransport {
        calls: 0,
        reply: (200, true),
    };
    assert_eq!(lookup_with(&p, &mut t, "NODASH"), Ok(false));
    assert_eq!(t.calls, 0);
}

#[test]
fn unparsable_suffix_answers_false_without_query() {
    let p = provider();
    let mut t = CountingTransport {
        calls: 0,
        reply: (200, true),
    };
    assert_eq!(lookup_with(&p, &mut t, "TASK-99999999999"), Ok(false));
    assert_eq!(lookup_with(&p, &mut t, "TASK-"), Ok(false));
    assert_eq!(lookup_with(&p, &mut t, "TASK-abc"), Ok(false));
    assert_eq!(t.calls, 0);
}

#[test]
fn auth_rejection_surfaces_as_auth_error() {
    let p = provider();
    let mut t = CountingTransport {
        calls: 0,
        reply: (401, false),
    };
    assert_eq!(
        lookup_with(&p, &mut t, "TASK-7"),
        Err(NotionError::Auth)
    );
    assert_eq!(t.calls, 1);
}

#[test]
fn statuses_map_to_documented_outcomes() {
    assert_eq!(NotionProvider::interpret_response(200, true), Ok(true));
    assert_eq!(NotionProvider::interpret_response(200, false), Ok(false));
    assert_eq!(NotionProvider::interpret_response(404, false), Ok(false));
    assert_eq!(
        NotionProvider::interpret_response(400, false),
        Err(NotionError::Auth)
    );
    assert_eq!(
        NotionProvider::interpret_response(401, false),
        Err(NotionError::Auth)
    );
    assert_eq!(
        NotionProvider::interpret_response(500, false),
        Err(NotionError::Auth)
    );
}

#[test]
fn error_messages_name_the_kind() {
    assert_eq!(
        NotionError::Http("timed out".to_string()).message(),
        "HTTP error: timed out"
    );
    assert_eq!(NotionError::Auth.message(), "Authentication failed");
    assert_eq!(NotionError::NotFound.message(), "Page not found");
}

#[test]
fn error_kinds_stay_distinct() {
    let http = NotionError::Http("connection reset".to_string());
    assert_ne!(http, NotionError::Auth);
    assert_ne!(NotionError::Auth, NotionError::NotFound);
    match http {
        NotionError::Http(msg) => assert_eq!(msg, "connection reset"),
        _ => panic!("Expected the transport error kind"),
    }
}

/// A provider implemented over a canned answer, to exercise the capability
/// trait as a user of the library would.
struct FixedProvider {
    answer: bool,
}

impl IssueProvider for FixedProvider {
    type Error = NotionError;

    fn issue_exists(&self, _id: &str) -> Result<bool, Self::Error> {
        Ok(self.answer)
    }
}

#[test]
fn capability_trait_is_implementable() {
    let p = FixedProvider { answer: true };
    assert_eq!(p.issue_exists("TASK-1"), Ok(true));
}

#[test]
fn provider_keeps_database_id() {
    let p = provider();
    assert_eq!(p.database_id, "db-1");
}

#[test]
fn defaults_match_documented_values() {
    let config = Config::default();
    assert_eq!(config.mode, "validate");
    assert_eq!(config.output.format, "standard");
    assert!(!config.output.verbose);
    assert!(config.providers.is_empty());
    assert!(config.scan.ignore.is_empty());
    assert!(config.scan.included.is_empty());
    assert!(!config.scan.match_case_insensitive);
    assert_eq!(tudu::default_mode(), "validate");
    assert_eq!(tudu::default_format(), "standard");
}
