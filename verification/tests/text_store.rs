use followup_engine::error::{EngineError, ValidationReason};
use followup_engine::greeting::greet;
use followup_engine::model::{Client, FollowUpRule, Interaction, Record, Template};
use followup_engine::store::{ListFilter, Store};
use followup_engine::text::{check_email, chars_of, render};

#[test]
fn well_formed_addresses_pass() {
    for ok in ["a@b.c", "first.last@example.org", "x+tag@mail.example.co.uk", "ü@bücher.de"] {
        assert!(check_email(ok), "{}", ok);
    }
}

#[test]
fn malformed_addresses_fail() {
    for bad in [
        "",
        "plain",
        "@example.org",
        "a@b",
        "a@.c",
        "a@b.",
        "a@@b.c",
        "a@b@c.d",
        "a b@c.de",
        "a@b .de",
        "a@bc.d\n",
        "\ta@bc.d",
        "a.b@c",
    ] {
        assert!(!check_email(bad), "{:?}", bad);
    }
}

#[test]
fn rendering_replaces_known_placeholders() {
    assert_eq!(render("Hello {name}!", "Ada", "ada@example.org"), "Hello Ada!");
    assert_eq!(render("{email}", "Ada", "ada@example.org"), "ada@example.org");
    assert_eq!(render("{name}{name} <{email}>", "Bo", "bo@x.y"), "BoBo <bo@x.y>");
    assert_eq!(render("", "Ada", "a@b.c"), "");
    assert_eq!(render("no placeholders", "Ada", "a@b.c"), "no placeholders");
}

#[test]
fn rendering_copies_what_it_does_not_know() {
    assert_eq!(render("{unknown} {name", "Ada", "a@b.c"), "{unknown} {name");
    assert_eq!(render("{{name}}", "Ada", "a@b.c"), "{Ada}");
    assert_eq!(render("{ name }", "Ada", "a@b.c"), "{ name }");
    assert_eq!(render("}{name}{", "Ada", "a@b.c"), "}Ada{");
    assert_eq!(render("{Name}", "Ada", "a@b.c"), "{Name}");
    assert_eq!(render("{x{name}", "Ada", "a@b.c"), "{xAda");
    assert_eq!(render("é{name}ü", "Zoë", "a@b.c"), "éZoëü");
}

#[test]
fn rendering_does_not_expand_values() {
    assert_eq!(render("{name}", "{email}", "a@b.c"), "{email}");
}

#[test]
fn chars_of_keeps_every_character() {
    assert_eq!(chars_of("aé✓"), vec!['a', 'é', '✓']);
    assert!(chars_of("").is_empty());
}

fn client(id: u64, name: &str, email: &str) -> Client {
    Client {
        id,
        name: name.to_string(),
        email: email.to_string(),
        intake_at: 100,
        interactions: vec![Interaction { at: 100, kind: 1 }, Interaction { at: 100, kind: 2 }],
        archived: false,
    }
}

#[test]
fn store_inserts_replaces_and_finds() {
    let mut store: Store<Client> = Store::new();
    assert_eq!(store.upsert(client(1, "Ada", "ada@example.org")).unwrap().name, "Ada");
    store.upsert(client(2, "Bo", "bo@example.org")).unwrap();
    assert_eq!(store.len(), 2);
    let stored = store.upsert(client(1, "Ada L.", "ada@example.org")).unwrap();
    assert_eq!(stored.name, "Ada L.");
    assert_eq!(store.len(), 2);
    assert_eq!(store.get(1).unwrap().name, "Ada L.");
    assert_eq!(store.get(2).unwrap().email, "bo@example.org");
    assert_eq!(store.get(3), Err(EngineError::NotFound));
    assert_eq!(store.position(2), Some(1));
    assert_eq!(store.position(9), None);
    let order: Vec<u64> = store.list(ListFilter::All).iter().map(|c| c.id).collect();
    assert_eq!(order, vec![1, 2]);
}

#[test]
fn store_rejects_invalid_clients_without_change() {
    let mut store: Store<Client> = Store::new();
    store.upsert(client(1, "Ada", "ada@example.org")).unwrap();
    assert_eq!(
        store.upsert(client(1, "", "ada@example.org")),
        Err(EngineError::Validation(ValidationReason::EmptyName))
    );
    assert_eq!(
        store.upsert(client(2, "Bo", "bo-at-example.org")),
        Err(EngineError::Validation(ValidationReason::InvalidEmail))
    );
    let mut disordered = client(3, "Cy", "cy@example.org");
    disordered.interactions = vec![Interaction { at: 5, kind: 1 }, Interaction { at: 4, kind: 1 }];
    assert_eq!(
        store.upsert(disordered),
        Err(EngineError::Validation(ValidationReason::InteractionsOutOfOrder))
    );
    // The first problem found is the one reported.
    assert_eq!(
        store.upsert(client(4, "", "nope")),
        Err(EngineError::Validation(ValidationReason::EmptyName))
    );
    assert_eq!(store.len(), 1);
    assert_eq!(store.get(1).unwrap().name, "Ada");
}

#[test]
fn store_archives_softly() {
    let mut store: Store<Client> = Store::new();
    store.upsert(client(1, "Ada", "ada@example.org")).unwrap();
    store.upsert(client(2, "Bo", "bo@example.org")).unwrap();
    assert_eq!(store.archive(1), Ok(()));
    assert_eq!(store.archive(5), Err(EngineError::NotFound));
    assert_eq!(store.len(), 2);
    let archived = store.get(1).unwrap();
    assert!(archived.archived);
    assert_eq!(archived.name, "Ada");
    assert_eq!(archived.interactions.len(), 2);
    let active: Vec<u64> = store.list(ListFilter::Active).iter().map(|c| c.id).collect();
    assert_eq!(active, vec![2]);
    let gone: Vec<u64> = store.list(ListFilter::Archived).iter().map(|c| c.id).collect();
    assert_eq!(gone, vec![1]);
    assert_eq!(store.archive(1), Ok(()));
    assert!(store.get(1).unwrap().archived);
}

#[test]
fn templates_need_a_name_and_a_subject() {
    let mut store: Store<Template> = Store::new();
    let t = |name: &str, subject: &str| Template {
        id: 1,
        name: name.to_string(),
        subject: subject.to_string(),
        body: String::new(),
        active: true,
    };
    assert_eq!(
        store.upsert(t("", "s")),
        Err(EngineError::Validation(ValidationReason::EmptyName))
    );
    assert_eq!(
        store.upsert(t("n", "")),
        Err(EngineError::Validation(ValidationReason::EmptySubject))
    );
    assert!(store.upsert(t("n", "s")).is_ok());
    store.archive(1).unwrap();
    assert!(!store.get(1).unwrap().active);
    assert!(store.list(ListFilter::Active).is_empty());
}

#[test]
fn records_know_their_identity() {
    let c = client(7, "Ada", "ada@example.org");
    assert_eq!(c.id(), 7);
    assert!(!c.is_archived());
    assert_eq!(c.problem(), None);
    assert!(c.archived_copy().is_archived());
    assert_eq!(c.duplicate(), c);
    assert_eq!(c.clone(), c);
    let r = FollowUpRule {
        id: 3,
        template_id: 1,
        anchor: followup_engine::model::Anchor::Intake,
        offset: 0,
        recurrence: followup_engine::model::Recurrence::OneShot,
        active: true,
    };
    assert_eq!(r.id(), 3);
    assert!(r.archived_copy().is_archived());
    assert_eq!(r.problem(), None);
}

#[test]
fn greeting_names_the_user() {
    assert_eq!(greet("Ada"), "Hello, Ada! Welcome to Cleveland LGBTQ Center Automation.");
    assert_eq!(greet("World"), "Hello, World! Welcome to Cleveland LGBTQ Center Automation.");
}

#[test]
fn greeting_takes_the_name_as_it_is() {
    assert_eq!(greet(""), "Hello, ! Welcome to Cleveland LGBTQ Center Automation.");
    assert_eq!(greet("  "), "Hello,   ! Welcome to Cleveland LGBTQ Center Automation.");
    assert_eq!(greet("{}"), "Hello, {}! Welcome to Cleveland LGBTQ Center Automation.");
    assert_eq!(greet("{name}"), "Hello, {name}! Welcome to Cleveland LGBTQ Center Automation.");
    assert_eq!(greet("Zoë ✓"), "Hello, Zoë ✓! Welcome to Cleveland LGBTQ Center Automation.");
    assert_eq!(greet("a\nb"), "Hello, a\nb! Welcome to Cleveland LGBTQ Center Automation.");
}

#[test]
fn greeting_frames_the_name() {
    for name in ["x", "Grace Hopper", "Hello, "] {
        let out = greet(name);
        assert!(out.starts_with("Hello, "));
        assert!(out.ends_with("! Welcome to Cleveland LGBTQ Center Automation."));
        assert_eq!(out.len(), name.len() + 7 + 47);
        assert_eq!(&out[7..7 + name.len()], name);
    }
}
