use tiny::help::Help;
use tiny::html::{Html, Node};
use tiny::lang::{Lang, LangBlock, LangItem};

#[test]
fn html_escape_rewrites_the_five_metacharacters() {
    assert_eq!(
        Html::escape(b"<a href=\"x\">&'</a>"),
        b"&lt;a href=&quot;x&quot;&gt;&amp;&apos;&lt;/a&gt;".to_vec()
    );
    assert_eq!(Html::escape(b"plain text"), b"plain text".to_vec());
    assert_eq!(Html::escape(b""), b"".to_vec());
}

#[test]
fn html_de_escape_is_identity() {
    assert_eq!(Html::de_escape(b"&lt;kept&gt;"), b"&lt;kept&gt;".to_vec());
}

#[test]
fn html_get_finds_views_by_module_and_class() {
    let mut html = Html::new();
    let views = vec![("index".to_string(), vec![Node::Text("hello".to_string())])];
    html.add_module(
        "index".to_string(),
        vec![("index".to_string(), views)],
    );
    let found = html.get("index", "index").expect("views");
    assert_eq!(found.len(), 1);
    assert_eq!(found[0].0, "index");
    assert!(matches!(&found[0].1[0], Node::Text(t) if t == "hello"));
    assert!(html.get("index", "missing").is_none());
    assert!(html.get("missing", "index").is_none());
}

#[test]
fn lang_check_knows_available_ids() {
    let mut lang = Lang::new();
    assert!(!lang.check(0));
    lang.add_lang(LangItem {
        id: 0,
        code: "us".to_string(),
        lang: "en".to_string(),
        name: "English".to_string(),
    });
    lang.add_lang(LangItem {
        id: 1,
        code: "ua".to_string(),
        lang: "uk".to_string(),
        name: "Ukrainian".to_string(),
    });
    assert!(lang.check(0));
    assert!(lang.check(1));
    assert!(!lang.check(2));
}

#[test]
fn lang_get_finds_translations_by_id_module_class() {
    let mut lang = Lang::new();
    lang.add_block(LangBlock {
        id: 0,
        module: "index".to_string(),
        class: "index".to_string(),
        texts: vec![("hello".to_string(), "Hello".to_string())],
    });
    lang.add_block(LangBlock {
        id: 1,
        module: "index".to_string(),
        class: "index".to_string(),
        texts: vec![("hello".to_string(), "Vitayu".to_string())],
    });
    let texts = lang.get(1, "index", "index").expect("texts");
    assert_eq!(texts[0].1, "Vitayu");
    assert!(lang.get(2, "index", "index").is_none());
    assert!(lang.get(0, "other", "index").is_none());
}

#[test]
fn help_text_names_the_actions() {
    let text = Help::show();
    assert!(text.contains("start"));
    assert!(text.contains("stop"));
    assert!(text.contains("go"));
    assert!(text.contains("help"));
}
