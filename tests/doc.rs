use brdgme_game::command::doc::{doc_enum, doc_int, Markup, Opts};
use brdgme_game::command::Spec;

fn card(desc: &str) -> Spec {
    Spec::Doc {
        name: "card".to_string(),
        desc: Some(desc.to_string()),
        spec: Box::new(Spec::Enum {
            values: vec!["BX".to_string(), "B10".to_string(), "G3".to_string()],
            exact: true,
        }),
    }
}

fn t(s: &str) -> Markup {
    Markup::Text(s.to_string())
}

fn b(s: &str) -> Markup {
    Markup::Bold(vec![t(s)])
}

#[test]
fn doc_it_works() {
    println!(
        "{:?}",
        Spec::OneOf(vec![
            Spec::Doc {
                name: "play".to_string(),
                desc: Some("play a card to an expedition".to_string()),
                spec: Box::new(Spec::Chain(vec![
                    Spec::Token("play".to_string()),
                    Spec::Space,
                    card("the card to play"),
                    Spec::Space,
                    Spec::Token("from".to_string()),
                    Spec::Space,
                    card("the card to play"),
                ])),
            },
            Spec::Doc {
                name: "discard".to_string(),
                desc: Some("discard a card to an discard pile".to_string()),
                spec: Box::new(Spec::Chain(vec![
                    Spec::Token("discard".to_string()),
                    Spec::Space,
                    card("the card to discard"),
                ])),
            },
        ])
        .doc(&Opts::default())
        .0
    );
}

#[test]
fn doc_of_split_alternatives() {
    let spec = Spec::OneOf(vec![
        Spec::Doc {
            name: "play".to_string(),
            desc: Some("play a card".to_string()),
            spec: Box::new(Spec::Chain(vec![Spec::Token("play".to_string()), Spec::Space, card("the card")])),
        },
        Spec::Chain(vec![Spec::Token("pass".to_string()), Spec::Opt(Box::new(Spec::Player))]),
    ]);
    let (doc, desc) = spec.doc(&Opts::default());
    assert_eq!(desc, None);
    assert_eq!(
        doc,
        vec![
            Markup::Grey(vec![t("play a card")]),
            t("\n  "),
            b("play"),
            t(" "),
            t("[card]"),
            t("\n"),
            b("pass"),
            t("player"),
            t("?"),
        ]
    );
}

#[test]
fn doc_of_flat_alternatives() {
    let spec = Spec::OneOf(vec![Spec::Token("a".to_string()), Spec::Int { min: Some(2), max: None }]);
    let opts = Opts { split_one_of: false, output_desc: true, name: None };
    let (doc, _) = spec.doc(&opts);
    assert_eq!(doc, vec![t("["), b("a"), t(" | "), t("2+"), t("]")]);
}

#[test]
fn doc_of_integers_and_enums() {
    assert_eq!(doc_int(None, None), vec![t("#")]);
    assert_eq!(doc_int(Some(3), Some(3)), vec![b("3")]);
    assert_eq!(doc_int(Some(-1), Some(5)), vec![t("-1-5")]);
    assert_eq!(doc_int(None, Some(5)), vec![t("0-5")]);
    assert_eq!(doc_int(Some(1), None), vec![t("1+")]);
    let values = vec!["x".to_string(), "y".to_string(), "z".to_string()];
    assert_eq!(doc_enum(&values, &Opts::default()), vec![t("[x | y | z]")]);
    let named = Opts { split_one_of: true, output_desc: true, name: Some("tile".to_string()) };
    assert_eq!(doc_enum(&values, &named), vec![t("[tile]")]);
}

#[test]
fn doc_carries_first_description_of_chain() {
    let spec = Spec::Chain(vec![
        Spec::Doc { name: "n".to_string(), desc: Some("first".to_string()), spec: Box::new(Spec::Space) },
        Spec::Doc { name: "m".to_string(), desc: Some("second".to_string()), spec: Box::new(Spec::Space) },
    ]);
    let (doc, desc) = spec.doc(&Opts::default());
    assert_eq!(desc, Some("first".to_string()));
    assert_eq!(doc, vec![t(" "), t(" ")]);
}
