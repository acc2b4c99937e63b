use vstd::prelude::*;

use crate::relay::texts_view;
use crate::text::{chars_of, equals_text};

verus! {

#[verifier::external_type_specification]
#[verifier::external_body]
pub struct ExItemFn(syn::ItemFn);

/// The HTTP method names whose attribute macros mark a route handler.
pub open spec fn is_route_name(name: Seq<char>) -> bool {
    name == seq!['p', 'o', 's', 't'] || name == seq!['g', 'e', 't'] || name == seq!['p', 'u', 't']
        || name == seq!['d', 'e', 'l', 'e', 't', 'e']
}

/// `n` copies of `name`.
pub open spec fn repeated(name: Seq<char>, n: nat) -> Seq<Seq<char>> {
    Seq::new(n, |i: int| name)
}

/// The form of one attribute of a function item.
#[derive(Clone, Debug, PartialEq, Eq)]
pub enum AttrMeta {
    /// `#[name]`.
    Path,
    /// `#[path(...)]`, with the path where it is one plain identifier.
    List(Option<String>),
    /// `#[path = value]`.
    NameValue,
}

/// The value of an [`AttrMeta`].
pub enum AttrMetaView {
    Path,
    List(Option<Seq<char>>),
    NameValue,
}

impl View for AttrMeta {
    type V = AttrMetaView;

    open spec fn view(&self) -> AttrMetaView {
        match self {
            AttrMeta::Path => AttrMetaView::Path,
            AttrMeta::List(Some(s)) => AttrMetaView::List(Some(s@)),
            AttrMeta::List(None) => AttrMetaView::List(None),
            AttrMeta::NameValue => AttrMetaView::NameValue,
        }
    }
}

/// Whether an attribute marks a route handler: a macro call of list form
/// whose path is one of the HTTP method names.
pub open spec fn is_route_attr(a: AttrMetaView) -> bool {
    match a {
        AttrMetaView::List(Some(name)) => is_route_name(name),
        _ => false,
    }
}

/// How many of the attributes mark a route handler.
pub open spec fn route_hits(attrs: Seq<AttrMetaView>) -> nat
    decreases attrs.len(),
{
    if attrs.len() == 0 {
        0
    } else {
        route_hits(attrs.drop_last()) + if is_route_attr(attrs.last()) {
            1nat
        } else {
            0nat
        }
    }
}

/// The views of a list of attributes.
pub open spec fn metas_view(v: Seq<AttrMeta>) -> Seq<AttrMetaView> {
    v.map_values(|a: AttrMeta| a@)
}

/// Whether `name` is one of `post`, `get`, `put` and `delete`.
pub fn is_route_macro(name: &str) -> (r: bool)
    ensures
        r == is_route_name(name@),
{
    let n = chars_of(name);
    let post: Vec<char> = vec!['p', 'o', 's', 't'];
    let get: Vec<char> = vec!['g', 'e', 't'];
    let put: Vec<char> = vec!['p', 'u', 't'];
    let delete: Vec<char> = vec!['d', 'e', 'l', 'e', 't', 'e'];
    assert(post@ =~= seq!['p', 'o', 's', 't']);
    assert(get@ =~= seq!['g', 'e', 't']);
    assert(put@ =~= seq!['p', 'u', 't']);
    assert(delete@ =~= seq!['d', 'e', 'l', 'e', 't', 'e']);
    equals_text(&n, &post) || equals_text(&n, &get) || equals_text(&n, &put) || equals_text(
        &n,
        &delete,
    )
}

/// Relies on syn: the name of a function item (`sig.ident`).
#[verifier::external_body]
fn fn_ident(item_fn: &syn::ItemFn) -> String {
    item_fn.sig.ident.to_string()
}

/// Relies on syn: the form of each attribute of a function item
/// (`Attribute::meta`), with a list's path as an identifier where
/// `Path::get_ident` gives one.
#[verifier::external_body]
fn attr_metas(item_fn: &syn::ItemFn) -> Vec<AttrMeta> {
    item_fn.attrs.iter().map(|a| match &a.meta {
        syn::Meta::Path(_) => AttrMeta::Path,
        syn::Meta::List(list) => AttrMeta::List(list.path.get_ident().map(|i| i.to_string())),
        syn::Meta::NameValue(_) => AttrMeta::NameValue,
    }).collect()
}

/// Collects the names of the route handlers among the functions it visits.
pub struct FnVisitor {
    pub route_fns: Vec<String>,
}

impl FnVisitor {
    /// A visitor that has found nothing yet.
    pub fn new() -> (r: Self)
        ensures
            r.route_fns@.len() == 0,
    {
        Self { route_fns: vec![] }
    }

    /// Records `fn_name` once for each of its attributes that is a route
    /// macro call of list form, such as `#[get("/")]`.
    pub fn record_fn(&mut self, fn_name: &str, attr_names: &Vec<AttrMeta>)
        ensures
            texts_view(final(self).route_fns@) == texts_view(old(self).route_fns@) + repeated(
                fn_name@,
                route_hits(metas_view(attr_names@)),
            ),
    {
        let ghost start = texts_view(self.route_fns@);
        let ghost names = metas_view(attr_names@);
        let mut k: usize = 0;
        while k < attr_names.len()
            invariant
                k <= attr_names.len(),
                names == metas_view(attr_names@),
                texts_view(self.route_fns@) == start + Seq::new(
                    route_hits(names.subrange(0, k as int)),
                    |i: int| fn_name@,
                ),
            decreases attr_names.len() - k,
        {
            let ghost before = texts_view(self.route_fns@);
            assert(names.subrange(0, k + 1).drop_last() =~= names.subrange(0, k as int));
            match &attr_names[k] {
                AttrMeta::List(Some(name)) => {
                    if is_route_macro(name.as_str()) {
                        self.route_fns.push(fn_name.to_owned());
                        assert(texts_view(self.route_fns@) =~= before + seq![fn_name@]);
                    }
                },
                _ => {},
            }
            k = k + 1;
            assert(texts_view(self.route_fns@) =~= start + Seq::new(
                route_hits(names.subrange(0, k as int)),
                |i: int| fn_name@,
            ));
        }
        assert(names.subrange(0, k as int) =~= names);
    }

    /// Visits one function item: where some of its attributes are route
    /// macros, its name is recorded once for each of them.
    pub fn visit_item_fn(&mut self, item_fn: &syn::ItemFn)
        ensures
            exists|name: Seq<char>, n: nat|
                texts_view(final(self).route_fns@) == texts_view(old(self).route_fns@)
                    + #[trigger] repeated(name, n),
    {
        let name = fn_ident(item_fn);
        let attrs = attr_metas(item_fn);
        self.record_fn(name.as_str(), &attrs);
    }
}

} // verus!
