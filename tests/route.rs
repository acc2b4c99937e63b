use chat_relay::plugin::ReturningIdPlugin;
use chat_relay::route::{is_route_macro, AttrMeta, FnVisitor};

#[test]
fn route_macro_names() {
    for n in ["post", "get", "put", "delete"] {
        assert!(is_route_macro(n));
    }
    for n in ["patch", "utoipa", "", "gets"] {
        assert!(!is_route_macro(n));
    }
}

#[test]
fn records_once_per_route_attribute() {
    let mut v = FnVisitor::new();
    assert!(v.route_fns.is_empty());
    v.record_fn("index", &vec![
        AttrMeta::List(Some("get".to_string())),
        AttrMeta::List(None),
        AttrMeta::Path,
        AttrMeta::NameValue,
        AttrMeta::List(Some("doc".to_string())),
        AttrMeta::List(Some("post".to_string())),
    ]);
    v.record_fn("helper", &vec![AttrMeta::List(Some("inline".to_string()))]);
    assert_eq!(v.route_fns, vec!["index".to_string(), "index".to_string()]);
}

#[test]
fn visits_parsed_functions() {
    let mut v = FnVisitor::new();
    let route: syn::ItemFn = syn::parse_str("#[get(\"/connect\")] pub async fn connect() {}").unwrap();
    let plain: syn::ItemFn = syn::parse_str("#[inline] fn helper() {}").unwrap();
    let path: syn::ItemFn = syn::parse_str("#[rocket::get(\"/\")] fn other() {}").unwrap();
    let bare: syn::ItemFn = syn::parse_str("#[get] fn bare() {}").unwrap();
    v.visit_item_fn(&bare);
    v.visit_item_fn(&route);
    v.visit_item_fn(&plain);
    v.visit_item_fn(&path);
    assert_eq!(v.route_fns, vec!["connect".to_string()]);
}

#[test]
fn rewrites_insert_statements() {
    let p = ReturningIdPlugin {};
    assert_eq!(p.rewrite_sql("insert into users (name) values ($1)"), Some("insert into users (name) values ($1) returning id".to_string()));
    assert_eq!(p.rewrite_sql("select * from users"), None);
    assert_eq!(p.rewrite_sql(""), None);
}
