//! The source scanner: it walks a parsed source tree, recognizes
//! member-access chains rooted at tracked import identifiers, and feeds
//! their tokens into class-name accumulators, deduplicating by selector.
//!
//! The tree is the crate's own model of the syntax the scanner reads: the
//! host parser's output is converted into these plain values before the
//! scanner sees it.

use vstd::prelude::*;

use crate::config::Config;
use crate::scanner::class_name::{ClassArguments, ClassName, Validity};
use crate::utils::str_eq;

verus! {

/// An identifier together with its scope mark; two identifiers refer to
/// the same binding exactly when both parts agree.
pub struct Ident {
    pub sym: String,
    pub ctxt: u32,
}

impl Ident {
    /// An equal identifier.
    pub fn dup(&self) -> (r: Self)
        ensures
            r.sym@ == self.sym@,
            r.ctxt == self.ctxt,
    {
        Ident { sym: self.sym.clone(), ctxt: self.ctxt }
    }
}

/// A literal the scanner can evaluate.
pub enum Lit {
    /// A string literal.
    Str(String),
    /// A numeric literal, carried as its printed text.
    Num(String),
    /// A big-integer literal, carried as its printed text.
    BigInt(String),
    /// A boolean literal.
    Bool(bool),
}

/// The property part of a member access.
pub enum MemberProp {
    /// Dotted access: `a.b`.
    Ident(String),
    /// Computed access: `a[expr]`.
    Computed(Box<Expr>),
    /// Anything else (private names and the like).
    Other,
}

/// One entry of an object literal.
pub enum ObjectEntry {
    /// A key/value property; the key expression is present when computed.
    KeyValue(Option<Box<Expr>>, Box<Expr>),
    /// A spread or any other kind of property.
    Other,
}

/// An expression of the scanned source, reduced to what the scanner
/// distinguishes.
pub enum Expr {
    /// A bare identifier.
    Ident(Ident),
    /// A literal.
    Lit(Lit),
    /// A member access: object and property.
    Member(Box<Expr>, MemberProp),
    /// A call: callee and arguments.
    Call(Box<Expr>, Vec<Expr>),
    /// An object literal.
    Object(Vec<ObjectEntry>),
    /// Any other construct; only its child expressions matter.
    Other(Vec<Expr>),
}

/// One import specifier.
pub enum ImportSpecifier {
    /// `import { x } from ...` or `import { x as y } from ...`.
    Named { local: Ident, imported: Option<String> },
    /// `import * as x from ...`.
    Namespace { local: Ident },
    /// `import x from ...`.
    Default { local: Ident },
}

/// One import declaration.
pub struct ImportDecl {
    pub src: String,
    pub type_only: bool,
    pub specifiers: Vec<ImportSpecifier>,
}

/// One item of a scanned source file.
pub enum SourceItem {
    /// An import declaration.
    Import(ImportDecl),
    /// An expression in any position.
    Expression(Expr),
    /// A construct holding further items (blocks, functions, classes).
    Block(Vec<SourceItem>),
}

/// An import that the scanner tracks: a package name and the imported
/// name, with `""` for a default import and `*` for a namespace import.
pub struct ValidImport {
    /// The name of the imported package being tracked.
    pub package_name: String,
    /// The imported name; `""` tracks the default import, `*` a namespace
    /// import.
    pub import_name: String,
}

impl ValidImport {
    /// Track `import_name` from `package_name`.
    pub fn new(package_name: &str, import_name: &str) -> (r: Self)
        ensures
            r.package_name@ == package_name@,
            r.import_name@ == import_name@,
    {
        ValidImport {
            package_name: String::from_str(package_name),
            import_name: String::from_str(import_name),
        }
    }

    /// An equal tracked import.
    pub fn dup(&self) -> (r: Self)
        ensures
            r.package_name@ == self.package_name@,
            r.import_name@ == self.import_name@,
    {
        ValidImport {
            package_name: self.package_name.clone(),
            import_name: self.import_name.clone(),
        }
    }
}

/// The package-name views of the tracked imports.
pub open spec fn package_views(imports: Seq<ValidImport>) -> Seq<Seq<char>> {
    imports.map_values(|v: ValidImport| v.package_name@)
}

/// The identifier a specifier binds when it matches the tracked imported
/// name: a named import whose imported (or un-renamed local) name equals
/// it, a namespace import when the name is `*`, a default import when the
/// name is empty.
pub open spec fn spec_specifier_match(s: ImportSpecifier, import_name: Seq<char>) -> Option<
    (Seq<char>, u32),
> {
    match s {
        ImportSpecifier::Named { local, imported } => match imported {
            Some(n) => if n@ == import_name {
                Some((local.sym@, local.ctxt))
            } else {
                None
            },
            None => if local.sym@ == import_name {
                Some((local.sym@, local.ctxt))
            } else {
                None
            },
        },
        ImportSpecifier::Namespace { local } => if import_name == "*"@ {
            Some((local.sym@, local.ctxt))
        } else {
            None
        },
        ImportSpecifier::Default { local } => if import_name.len() == 0 {
            Some((local.sym@, local.ctxt))
        } else {
            None
        },
    }
}

/// The last matching specifier wins.
pub open spec fn last_specifier_match(
    specs: Seq<ImportSpecifier>,
    import_name: Seq<char>,
) -> Option<(Seq<char>, u32)>
    decreases specs.len(),
{
    if specs.len() == 0 {
        None
    } else {
        match spec_specifier_match(specs.last(), import_name) {
            Some(id) => Some(id),
            None => last_specifier_match(specs.drop_last(), import_name),
        }
    }
}

/// What one import declaration does to the tracked identifiers: when the
/// declaration is not type-only, its source names the first tracked
/// package, and a specifier matches that package's imported name, the
/// matched identifier joins the set; otherwise nothing changes.
pub open spec fn import_post(
    imports: Seq<ValidImport>,
    old_ids: Seq<Ident>,
    new_ids: Seq<Ident>,
    node: ImportDecl,
) -> bool {
    match crate::utils::find_view(package_views(imports), node.src@) {
        Some(f) => if node.type_only {
            new_ids == old_ids
        } else {
            match last_specifier_match(node.specifiers@, imports[f].import_name@) {
                Some(id) => {
                    &&& new_ids.len() == old_ids.len() + 1
                    &&& new_ids.take(old_ids.len() as int) == old_ids
                    &&& new_ids.last().sym@ == id.0
                    &&& new_ids.last().ctxt == id.1
                },
                None => new_ids == old_ids,
            }
        },
        None => new_ids == old_ids,
    }
}

/// Whether some tracked identifier matches the given one, by symbol and
/// scope mark.
pub open spec fn spec_is_root_identifier(import_ids: Seq<Ident>, sym: Seq<char>, ctxt: u32) -> bool {
    exists|i: int|
        0 <= i < import_ids.len() && (#[trigger] import_ids[i]).sym@ == sym && import_ids[i].ctxt
            == ctxt
}

/// Check whether the identifier is one of the tracked import bindings.
pub fn is_root_identifier(import_ids: &Vec<Ident>, identifier: &Ident) -> (r: bool)
    ensures
        r == spec_is_root_identifier(import_ids@, identifier.sym@, identifier.ctxt),
{
    let mut i: usize = 0;
    while i < import_ids.len()
        invariant
            0 <= i <= import_ids@.len(),
            forall|j: int|
                0 <= j < i ==> !((#[trigger] import_ids@[j]).sym@ == identifier.sym@
                    && import_ids@[j].ctxt == identifier.ctxt),
        decreases import_ids@.len() - i,
    {
        if str_eq(import_ids[i].sym.as_str(), identifier.sym.as_str()) && import_ids[i].ctxt
            == identifier.ctxt {
            assert(spec_is_root_identifier(import_ids@, identifier.sym@, identifier.ctxt)) by {
                assert((import_ids@[i as int]).sym@ == identifier.sym@ && import_ids@[i as int].ctxt
                    == identifier.ctxt);
            }
            return true;
        }
        i = i + 1;
    }
    false
}

/// The identifier chain of an expression rooted at a tracked import: the
/// property names from the root outward, or nothing when the root is not
/// tracked or the chain holds anything but plain names and string keys.
pub open spec fn spec_chain(e: Expr, import_ids: Seq<Ident>) -> Option<Seq<Seq<char>>>
    decreases e,
{
    match e {
        Expr::Member(obj, prop) => match spec_chain(*obj, import_ids) {
            Some(pre) => match prop {
                MemberProp::Ident(name) => Some(pre.push(name@)),
                MemberProp::Computed(ce) => match *ce {
                    Expr::Lit(Lit::Str(sname)) => Some(pre.push(sname@)),
                    _ => None,
                },
                MemberProp::Other => None,
            },
            None => None,
        },
        Expr::Ident(id) => if spec_is_root_identifier(import_ids, id.sym@, id.ctxt) {
            Some(Seq::empty())
        } else {
            None
        },
        Expr::Lit(lit) => match lit {
            Lit::Str(sname) => if spec_is_root_identifier(import_ids, sname@, 0) {
                Some(Seq::empty())
            } else {
                None
            },
            _ => None,
        },
        _ => None,
    }
}

/// Collect the identifier chain of an expression, when it is rooted at a
/// tracked import.
pub fn chain_identifiers(e: &Expr, import_ids: &Vec<Ident>) -> (r: Option<Vec<String>>)
    ensures
        match r {
            Some(ids) => spec_chain(*e, import_ids@) == Some(
                crate::utils::views_of_strings(ids@),
            ),
            None => spec_chain(*e, import_ids@) is None,
        },
    decreases *e,
{
    match e {
        Expr::Member(obj, prop) => {
            match chain_identifiers(obj, import_ids) {
                Some(mut ids) => {
                    let ghost pre = ids@;
                    match prop {
                        MemberProp::Ident(name) => {
                            ids.push(name.clone());
                            proof {
                                crate::utils::lemma_views_push(pre, ids@.last());
                            }
                            Some(ids)
                        },
                        MemberProp::Computed(ce) => {
                            match &**ce {
                                Expr::Lit(Lit::Str(sname)) => {
                                    ids.push(sname.clone());
                                    proof {
                                        crate::utils::lemma_views_push(pre, ids@.last());
                                    }
                                    Some(ids)
                                },
                                _ => None,
                            }
                        },
                        MemberProp::Other => None,
                    }
                },
                None => None,
            }
        },
        Expr::Ident(id) => {
            if is_root_identifier(import_ids, id) {
                let r: Vec<String> = Vec::new();
                proof {
                    assert(crate::utils::views_of_strings(r@) =~= Seq::<Seq<char>>::empty());
                }
                Some(r)
            } else {
                None
            }
        },
        Expr::Lit(lit) => {
            match lit {
                Lit::Str(sname) => {
                    let as_ident = Ident { sym: sname.clone(), ctxt: 0 };
                    if is_root_identifier(import_ids, &as_ident) {
                        let r: Vec<String> = Vec::new();
                        proof {
                            assert(crate::utils::views_of_strings(r@)
                                =~= Seq::<Seq<char>>::empty());
                        }
                        Some(r)
                    } else {
                        None
                    }
                },
                _ => None,
            }
        },
        _ => None,
    }
}

/// The tokens a member expression feeds, when its root is tracked: the
/// chain of its object plus its final property name.
pub open spec fn spec_member_tokens(member: Expr, import_ids: Seq<Ident>) -> Option<
    Seq<Seq<char>>,
> {
    match member {
        Expr::Member(obj, prop) => match prop {
            MemberProp::Ident(name) => match spec_chain(*obj, import_ids) {
                Some(chain) => Some(chain.push(name@)),
                None => None,
            },
            _ => None,
        },
        _ => None,
    }
}

impl<'c> ClassName<'c> {
    /// Build a class name from a member expression whose root resolves to
    /// a tracked import; the chain's names become the tokens.
    pub fn from_member_expression(
        config: &'c Config,
        member: &Expr,
        import_ids: &Vec<Ident>,
    ) -> (r: Option<ClassName<'c>>)
        requires
            config.bounded(),
        ensures
            match r {
                Some(c) => {
                    &&& spec_member_tokens(*member, import_ids@) is Some
                    &&& c.inv()
                    &&& c.cfg() == *config
                    &&& c.model().argument is None
                    &&& crate::scanner::class_name::add_tokens_rel(
                        *config,
                        crate::scanner::class_name::empty_model(),
                        c.model(),
                        spec_member_tokens(*member, import_ids@)->Some_0,
                    )
                },
                None => spec_member_tokens(*member, import_ids@) is None,
            },
    {
        match member {
            Expr::Member(obj, prop) => {
                match prop {
                    MemberProp::Ident(name) => {
                        match chain_identifiers(obj, import_ids) {
                            Some(mut identifiers) => {
                                let ghost pre = identifiers@;
                                identifiers.push(name.clone());
                                proof {
                                    crate::utils::lemma_views_push(pre, identifiers@.last());
                                }
                                let ghost toks = crate::utils::views_of_strings(identifiers@);
                                let mut class_name = ClassName::new(config);
                                let mut i: usize = 0;
                                proof {
                                    assert(toks.take(0int) =~= Seq::<Seq<char>>::empty());
                                }
                                while i < identifiers.len()
                                    invariant
                                        0 <= i <= identifiers@.len(),
                                        toks == crate::utils::views_of_strings(identifiers@),
                                        toks.len() == identifiers@.len(),
                                        class_name.inv(),
                                        class_name.cfg() == *config,
                                        class_name.model().argument is None,
                                        crate::scanner::class_name::add_tokens_rel(
                                            *config,
                                            crate::scanner::class_name::empty_model(),
                                            class_name.model(),
                                            toks.take(i as int),
                                        ),
                                    decreases identifiers@.len() - i,
                                {
                                    let ghost mid = class_name.model();
                                    class_name.add_token(identifiers[i].as_str());
                                    proof {
                                        crate::scanner::class_name::lemma_add_token_keeps_argument(
                                            *config,
                                            mid,
                                            class_name.model(),
                                            toks[i as int],
                                        );
                                        crate::scanner::class_name::lemma_add_tokens_snoc(
                                            *config,
                                            crate::scanner::class_name::empty_model(),
                                            mid,
                                            class_name.model(),
                                            toks.take(i as int),
                                            toks[i as int],
                                        );
                                        assert(toks.take(i as int).push(toks[i as int])
                                            =~= toks.take(i + 1 as int));
                                    }
                                    i = i + 1;
                                }
                                proof {
                                    assert(toks.take(toks.len() as int) =~= toks);
                                }
                                Some(class_name)
                            },
                            None => None,
                        }
                    },
                    _ => None,
                }
            },
            _ => None,
        }
    }
}

/// The models of a sequence of held records.
pub open spec fn class_models<'c>(s: Seq<ClassName<'c>>) -> Seq<
    crate::scanner::class_name::ClassModel,
> {
    s.map_values(|c: ClassName<'c>| c.model())
}

/// The valid records among the models, in order.
pub open spec fn valid_models(models: Seq<crate::scanner::class_name::ClassModel>) -> Seq<
    crate::scanner::class_name::ClassModel,
> {
    models.filter(|m: crate::scanner::class_name::ClassModel| m.validity is Valid)
}

/// Whether some held record already renders the selector of model `m`.
pub open spec fn holds_selector<'c>(
    cfg: Config,
    s: Seq<ClassName<'c>>,
    m: crate::scanner::class_name::ClassModel,
) -> bool {
    exists|i: int|
        0 <= i < s.len() && crate::scanner::class_name::spec_selector(
            cfg,
            (#[trigger] s[i]).model(),
        ) == crate::scanner::class_name::spec_selector(cfg, m)
}

/// The outcome of offering one record to the collection: nothing changes
/// when its selector is already present, otherwise a record with exactly
/// that model is appended.
pub open spec fn inserted_model<'c>(
    cfg: Config,
    old: Seq<ClassName<'c>>,
    new: Seq<ClassName<'c>>,
    m: crate::scanner::class_name::ClassModel,
) -> bool {
    if holds_selector(cfg, old, m) {
        new == old
    } else {
        &&& new.len() == old.len() + 1
        &&& new.take(old.len() as int) == old
        &&& new.last().model() == m
    }
}

/// The collection only ever grows, keeping what it held.
pub open spec fn grows<'c>(old: Seq<ClassName<'c>>, new: Seq<ClassName<'c>>) -> bool {
    new.len() >= old.len() && new.take(old.len() as int) == old
}

/// The text a literal evaluates to: strings as they stand, numbers and
/// big integers as pixel measurements, booleans as their names; anything
/// else evaluates to nothing.
pub open spec fn spec_literal_string(e: Expr) -> Option<Seq<char>> {
    match e {
        Expr::Lit(l) => match l {
            Lit::Str(svalue) => Some(svalue@),
            Lit::Num(n) => Some(n@ + "px"@),
            Lit::BigInt(n) => Some(n@ + "px"@),
            Lit::Bool(b) => Some(
                if b {
                    "true"@
                } else {
                    "false"@
                },
            ),
        },
        _ => None,
    }
}

/// The scan outcome for a member expression: a chain rooted at a tracked
/// import builds a record from its tokens and offers it to the
/// collection; anything else changes nothing.
pub open spec fn member_scan_post<'c>(
    cfg: Config,
    ids: Seq<Ident>,
    old: Seq<ClassName<'c>>,
    new: Seq<ClassName<'c>>,
    e: Expr,
) -> bool {
    match spec_member_tokens(e, ids) {
        Some(toks) => exists|m: crate::scanner::class_name::ClassModel|
            #[trigger] crate::scanner::class_name::add_tokens_rel(
                cfg,
                crate::scanner::class_name::empty_model(),
                m,
                toks,
            ) && m.argument is None && inserted_model(cfg, old, new, m),
        None => new == old,
    }
}

/// The scan outcome for the arguments of a tracked call: one literal
/// attaches as a value, two literals as a key/value pair, and the record
/// is offered to the collection; any other arity or a non-literal
/// argument skips the call entirely.
pub open spec fn call_args_post<'c>(
    cfg: Config,
    old: Seq<ClassName<'c>>,
    new: Seq<ClassName<'c>>,
    toks: Seq<Seq<char>>,
    args: Seq<Expr>,
) -> bool {
    if args.len() == 1 {
        match spec_literal_string(args[0]) {
            Some(v) => exists|
                m0: crate::scanner::class_name::ClassModel,
                m1: crate::scanner::class_name::ClassModel,
            |
                #[trigger] crate::scanner::class_name::add_tokens_rel(
                    cfg,
                    crate::scanner::class_name::empty_model(),
                    m0,
                    toks,
                ) && m0.argument is None && #[trigger] crate::scanner::class_name::add_arguments_post(
                    cfg,
                    m0,
                    m1,
                    (
                        None,
                        crate::utils::spec_escape_css(
                            crate::scanner::class_name::spec_trim(v),
                        ),
                    ),
                ) && inserted_model(cfg, old, new, m1),
            None => new == old,
        }
    } else if args.len() == 2 {
        match (spec_literal_string(args[0]), spec_literal_string(args[1])) {
            (Some(k), Some(v)) => exists|
                m0: crate::scanner::class_name::ClassModel,
                m1: crate::scanner::class_name::ClassModel,
            |
                #[trigger] crate::scanner::class_name::add_tokens_rel(
                    cfg,
                    crate::scanner::class_name::empty_model(),
                    m0,
                    toks,
                ) && m0.argument is None && #[trigger] crate::scanner::class_name::add_arguments_post(
                    cfg,
                    m0,
                    m1,
                    (
                        Some(
                            crate::utils::spec_escape_css(
                                crate::scanner::class_name::spec_trim(k),
                            ),
                        ),
                        crate::utils::spec_escape_css(
                            crate::scanner::class_name::spec_trim(v),
                        ),
                    ),
                ) && inserted_model(cfg, old, new, m1),
            _ => new == old,
        }
    } else {
        new == old
    }
}

/// The scan outcome for one expression: member chains and tracked calls
/// resolve as stated, bare identifiers and literals change nothing, and
/// every other construct is searched — it can only extend the collection.
pub open spec fn expr_scan_post<'c>(
    cfg: Config,
    ids: Seq<Ident>,
    old: Seq<ClassName<'c>>,
    new: Seq<ClassName<'c>>,
    e: Expr,
) -> bool {
    match e {
        Expr::Member(_, _) => member_scan_post(cfg, ids, old, new, e),
        Expr::Call(callee, args) => match *callee {
            Expr::Member(_, _) => match spec_member_tokens(*callee, ids) {
                Some(toks) => call_args_post(cfg, old, new, toks, args@),
                None => new == old,
            },
            Expr::Ident(id) => if spec_is_root_identifier(ids, id.sym@, id.ctxt) {
                call_args_post(cfg, old, new, Seq::empty(), args@)
            } else {
                grows(old, new)
            },
            _ => grows(old, new),
        },
        Expr::Ident(_) => new == old,
        Expr::Lit(_) => new == old,
        _ => grows(old, new),
    }
}

/// What one source item does to the tracked identifiers and the
/// collection. A nested block is pinned only to extending the collection
/// here; the visitor's own contract states the full chain again for the
/// block's items.
pub open spec fn item_step<'c>(
    cfg: Config,
    imports: Seq<ValidImport>,
    ids0: Seq<Ident>,
    names0: Seq<ClassName<'c>>,
    ids1: Seq<Ident>,
    names1: Seq<ClassName<'c>>,
    item: SourceItem,
) -> bool {
    match item {
        SourceItem::Import(decl) => names1 == names0 && import_post(imports, ids0, ids1, decl),
        SourceItem::Expression(e) => ids1 == ids0 && expr_scan_post(cfg, ids0, names0, names1, e),
        SourceItem::Block(_) => grows(names0, names1),
    }
}

/// A sequence of source items relates the states before and after, item
/// by item.
pub open spec fn items_rel<'c>(
    cfg: Config,
    imports: Seq<ValidImport>,
    ids0: Seq<Ident>,
    names0: Seq<ClassName<'c>>,
    ids1: Seq<Ident>,
    names1: Seq<ClassName<'c>>,
    items: Seq<SourceItem>,
) -> bool
    decreases items,
{
    if items.len() == 0 {
        ids1 == ids0 && names1 == names0
    } else {
        exists|idm: Seq<Ident>, nm: Seq<ClassName<'c>>|
            #[trigger] item_step(cfg, imports, ids0, names0, idm, nm, items[0]) && items_rel(
                cfg,
                imports,
                idm,
                nm,
                ids1,
                names1,
                items.drop_first(),
            )
    }
}

/// Extending an item chain by one more step.
pub proof fn lemma_items_snoc<'c>(
    cfg: Config,
    imports: Seq<ValidImport>,
    ids0: Seq<Ident>,
    names0: Seq<ClassName<'c>>,
    idm: Seq<Ident>,
    nm: Seq<ClassName<'c>>,
    ids1: Seq<Ident>,
    names1: Seq<ClassName<'c>>,
    items: Seq<SourceItem>,
    item: SourceItem,
)
    requires
        items_rel(cfg, imports, ids0, names0, idm, nm, items),
        item_step(cfg, imports, idm, nm, ids1, names1, item),
    ensures
        items_rel(cfg, imports, ids0, names0, ids1, names1, items.push(item)),
    decreases items.len(),
{
    reveal_with_fuel(items_rel, 3);
    if items.len() == 0 {
        assert(idm == ids0 && nm == names0);
        assert(items.push(item)[0] == item);
        assert(items.push(item).drop_first() =~= Seq::<SourceItem>::empty());
        assert(items_rel(
            cfg,
            imports,
            ids1,
            names1,
            ids1,
            names1,
            items.push(item).drop_first(),
        ));
        assert(item_step(cfg, imports, ids0, names0, ids1, names1, items.push(item)[0]));
        assert(items_rel(cfg, imports, ids0, names0, ids1, names1, items.push(item)));
    } else {
        assert(exists|ida: Seq<Ident>, nma: Seq<ClassName<'c>>|
            #[trigger] item_step(cfg, imports, ids0, names0, ida, nma, items[0]) && items_rel(
                cfg,
                imports,
                ida,
                nma,
                idm,
                nm,
                items.drop_first(),
            ));
        let (ida, nma) = choose|ida: Seq<Ident>, nma: Seq<ClassName<'c>>|
            #[trigger] item_step(cfg, imports, ids0, names0, ida, nma, items[0]) && items_rel(
                cfg,
                imports,
                ida,
                nma,
                idm,
                nm,
                items.drop_first(),
            );
        lemma_items_snoc(
            cfg,
            imports,
            ida,
            nma,
            idm,
            nm,
            ids1,
            names1,
            items.drop_first(),
            item,
        );
        assert(items.push(item)[0] == items[0]);
        assert(items.push(item).drop_first() =~= items.drop_first().push(item));
        assert(item_step(cfg, imports, ids0, names0, ida, nma, items.push(item)[0]));
        assert(items_rel(cfg, imports, ids0, names0, ids1, names1, items.push(item)));
    }
}

/// Nothing changing is a form of growing.
pub proof fn lemma_grows_refl<'c>(a: Seq<ClassName<'c>>)
    ensures
        grows(a, a),
{
    assert(a.take(a.len() as int) =~= a);
}

/// Growing is transitive.
pub proof fn lemma_grows_trans<'c>(
    a: Seq<ClassName<'c>>,
    b: Seq<ClassName<'c>>,
    c: Seq<ClassName<'c>>,
)
    requires
        grows(a, b),
        grows(b, c),
    ensures
        grows(a, c),
{
    assert(c.take(a.len() as int) =~= b.take(a.len() as int));
}

/// An offered record can only extend the collection.
pub proof fn lemma_inserted_grows<'c>(
    cfg: Config,
    old: Seq<ClassName<'c>>,
    new: Seq<ClassName<'c>>,
    m: crate::scanner::class_name::ClassModel,
)
    requires
        inserted_model(cfg, old, new, m),
    ensures
        grows(old, new),
{
    if holds_selector(cfg, old, m) {
        assert(new.take(old.len() as int) =~= old);
    }
}

/// The class-name collector: it owns the records discovered in one file,
/// the imports it tracks and the identifiers those imports bound.
pub struct ClassNameCollector<'c> {
    /// The records discovered so far, distinct by selector.
    pub class_names: Vec<ClassName<'c>>,
    /// The imports the scanner tracks.
    pub valid_imports: Vec<ValidImport>,
    /// The identifiers bound by matching imports so far.
    pub import_ids: Vec<Ident>,
    /// The configuration scanned against.
    pub config: &'c Config,
}

impl<'c> ClassNameCollector<'c> {
    /// The configuration scanned against.
    pub open spec fn cfg(&self) -> Config {
        *self.config
    }

    /// Every held record is internally consistent and resolves against
    /// the collector's configuration.
    pub open spec fn inv(&self) -> bool {
        &&& self.cfg().bounded()
        &&& forall|i: int|
            0 <= i < self.class_names@.len() ==> (#[trigger] self.class_names@[i]).inv()
                && self.class_names@[i].cfg() == self.cfg()
        &&& forall|i: int, j: int|
            0 <= i < j < self.class_names@.len() ==> crate::scanner::class_name::spec_selector(
                self.cfg(),
                (#[trigger] self.class_names@[i]).model(),
            ) != crate::scanner::class_name::spec_selector(
                self.cfg(),
                (#[trigger] self.class_names@[j]).model(),
            )
    }

    /// Track the given imports over the configuration.
    pub fn new(valid_imports: &Vec<ValidImport>, config: &'c Config) -> (r: Self)
        requires
            config.bounded(),
        ensures
            r.inv(),
            r.cfg() == *config,
            r.class_names@.len() == 0,
    {
        let mut imports: Vec<ValidImport> = Vec::new();
        let mut i: usize = 0;
        while i < valid_imports.len()
            decreases valid_imports@.len() - i,
        {
            imports.push(valid_imports[i].dup());
            i = i + 1;
        }
        ClassNameCollector {
            class_names: Vec::new(),
            valid_imports: imports,
            import_ids: Vec::new(),
            config,
        }
    }

    /// Deduplication: a record whose selector is already present leaves
    /// the collection unchanged; a new selector is appended. Scanning the
    /// same chain twice therefore never duplicates output.
    #[verifier::loop_isolation(false)]
    pub fn insert_class_name(&mut self, class_name: ClassName<'c>)
        requires
            old(self).inv(),
            class_name.inv(),
            class_name.cfg() == old(self).cfg(),
        ensures
            final(self).inv(),
            final(self).cfg() == old(self).cfg(),
            if holds_selector(old(self).cfg(), old(self).class_names@, class_name.model()) {
                final(self).class_names@ == old(self).class_names@
            } else {
                final(self).class_names@ == old(self).class_names@.push(class_name)
            },
            inserted_model(
                old(self).cfg(),
                old(self).class_names@,
                final(self).class_names@,
                class_name.model(),
            ),
            final(self).import_ids@ == old(self).import_ids@,
            final(self).valid_imports == old(self).valid_imports,
    {
        let selector = class_name.get_selector();
        let mut i: usize = 0;
        while i < self.class_names.len()
            invariant
                0 <= i <= self.class_names@.len(),
                self.inv(),
                forall|j: int|
                    0 <= j < i ==> crate::scanner::class_name::spec_selector(
                        self.cfg(),
                        (#[trigger] self.class_names@[j]).model(),
                    ) != crate::scanner::class_name::spec_selector(
                        self.cfg(),
                        class_name.model(),
                    ),
            decreases self.class_names@.len() - i,
        {
            proof {
                assert(self.class_names@[i as int].cfg() == self.cfg());
            }
            let existing = self.class_names[i].get_selector();
            if str_eq(existing.as_str(), selector.as_str()) {
                proof {
                    assert(holds_selector(self.cfg(), self.class_names@, class_name.model())) by {
                        assert(crate::scanner::class_name::spec_selector(
                            self.cfg(),
                            self.class_names@[i as int].model(),
                        ) == crate::scanner::class_name::spec_selector(
                            self.cfg(),
                            class_name.model(),
                        ));
                    }
                }
                return ;
            }
            proof {
                assert(crate::scanner::class_name::spec_selector(
                    self.cfg(),
                    self.class_names@[i as int].model(),
                ) != crate::scanner::class_name::spec_selector(self.cfg(), class_name.model()));
            }
            i = i + 1;
        }
        let ghost pre = self.class_names@;
        self.class_names.push(class_name);
        proof {
            assert(!holds_selector(self.cfg(), pre, class_name.model())) by {
                if holds_selector(self.cfg(), pre, class_name.model()) {
                    let w = choose|w: int|
                        0 <= w < pre.len() && crate::scanner::class_name::spec_selector(
                            self.cfg(),
                            (#[trigger] pre[w]).model(),
                        ) == crate::scanner::class_name::spec_selector(
                            self.cfg(),
                            class_name.model(),
                        );
                }
            }
            assert(self.class_names@.take(pre.len() as int) =~= pre);
        }
    }

    /// The valid records, exactly the collection's valid entries in
    /// discovery order; no two of them render the same selector.
    #[verifier::loop_isolation(false)]
    pub fn get_class_names(&self) -> (r: Vec<&ClassName<'c>>)
        requires
            self.inv(),
        ensures
            crate::generate_css::ref_models(r@) == valid_models(
                class_models(self.class_names@),
            ),
            forall|k: int|
                0 <= k < r@.len() ==> {
                    &&& (#[trigger] r@[k]).model().validity is Valid
                    &&& r@[k].inv()
                    &&& r@[k].cfg() == self.cfg()
                    &&& exists|i: int|
                        0 <= i < self.class_names@.len() && r@[k].model() == (
                        #[trigger] self.class_names@[i]).model()
                },
            forall|k: int, l: int|
                0 <= k < l < r@.len() ==> crate::scanner::class_name::spec_selector(
                    self.cfg(),
                    (#[trigger] r@[k]).model(),
                ) != crate::scanner::class_name::spec_selector(
                    self.cfg(),
                    (#[trigger] r@[l]).model(),
                ),
    {
        proof {
            reveal(Seq::filter);
        }
        let ghost all = class_models(self.class_names@);
        let mut out: Vec<&ClassName<'c>> = Vec::new();
        let mut i: usize = 0;
        proof {
            assert(crate::generate_css::ref_models(out@) =~= valid_models(all.take(0int)));
        }
        while i < self.class_names.len()
            invariant
                0 <= i <= self.class_names@.len(),
                all == class_models(self.class_names@),
                all.len() == self.class_names@.len(),
                crate::generate_css::ref_models(out@) == valid_models(all.take(i as int)),
                forall|k: int|
                    0 <= k < out@.len() ==> {
                        &&& (#[trigger] out@[k]).model().validity is Valid
                        &&& out@[k].inv()
                        &&& out@[k].cfg() == self.cfg()
                        &&& exists|w: int|
                            0 <= w < i && out@[k].model() == (
                            #[trigger] self.class_names@[w]).model()
                    },
                forall|k: int, l: int|
                    0 <= k < l < out@.len() ==> crate::scanner::class_name::spec_selector(
                        self.cfg(),
                        (#[trigger] out@[k]).model(),
                    ) != crate::scanner::class_name::spec_selector(
                        self.cfg(),
                        (#[trigger] out@[l]).model(),
                    ),
            decreases self.class_names@.len() - i,
        {
            proof {
                assert(all.take(i + 1 as int).drop_last() =~= all.take(i as int));
                assert(all.take(i + 1 as int).last() == all[i as int]);
                assert(all[i as int] == self.class_names@[i as int].model());
            }
            if self.class_names[i].is_valid() {
                let ghost pre_out = out@;
                out.push(&self.class_names[i]);
                proof {
                    assert(crate::generate_css::ref_models(out@) =~= valid_models(
                        all.take(i + 1 as int),
                    ));
                    assert forall|k: int| 0 <= k < out@.len() implies {
                        &&& (#[trigger] out@[k]).model().validity is Valid
                        &&& out@[k].inv()
                        &&& out@[k].cfg() == self.cfg()
                        &&& exists|w: int|
                            0 <= w < i + 1 && out@[k].model() == (
                            #[trigger] self.class_names@[w]).model()
                    } by {
                        if k < out@.len() - 1 {
                            assert(out@[k] == pre_out[k]);
                            let w = choose|w: int|
                                0 <= w < i && pre_out[k].model() == (
                                #[trigger] self.class_names@[w]).model();
                            assert(out@[k].model() == self.class_names@[w].model());
                        } else {
                            assert(out@[k].model() == self.class_names@[i as int].model());
                        }
                    }
                    assert forall|k: int, l: int| 0 <= k < l < out@.len() implies
                    crate::scanner::class_name::spec_selector(
                        self.cfg(),
                        (#[trigger] out@[k]).model(),
                    ) != crate::scanner::class_name::spec_selector(
                        self.cfg(),
                        (#[trigger] out@[l]).model(),
                    ) by {
                        if l == out@.len() - 1 {
                            assert(out@[k] == pre_out[k]);
                            let w = choose|w: int|
                                0 <= w < i && pre_out[k].model() == (
                                #[trigger] self.class_names@[w]).model();
                            assert(crate::scanner::class_name::spec_selector(
                                self.cfg(),
                                self.class_names@[w].model(),
                            ) != crate::scanner::class_name::spec_selector(
                                self.cfg(),
                                self.class_names@[i as int].model(),
                            ));
                        } else {
                            assert(out@[k] == pre_out[k] && out@[l] == pre_out[l]);
                        }
                    }
                }
            } else {
                proof {
                    assert(crate::generate_css::ref_models(out@) =~= valid_models(
                        all.take(i + 1 as int),
                    ));
                }
            }
            i = i + 1;
        }
        proof {
            assert(all.take(all.len() as int) =~= all);
        }
        out
    }

    /// Reorder the records by ascending score; records of equal score
    /// keep their discovery order.
    #[verifier::loop_isolation(false)]
    #[verifier::rlimit(80)]
    pub fn sort(&mut self)
        requires
            old(self).inv(),
        ensures
            final(self).inv(),
            final(self).cfg() == old(self).cfg(),
            forall|i: int, j: int|
                0 <= i < j < final(self).class_names@.len() ==> (
                #[trigger] final(self).class_names@[i]).model().score <= (
                #[trigger] final(self).class_names@[j]).model().score,
            final(self).class_names@.len() == old(self).class_names@.len(),
            class_models(final(self).class_names@).to_multiset() == class_models(
                old(self).class_names@,
            ).to_multiset(),
    {
        broadcast use vstd::seq_lib::group_to_multiset_ensures;

        let n = self.class_names.len();
        let mut i: usize = 1;
        if n <= 1 {
            return ;
        }
        while i < n
            invariant
                1 <= i <= n,
                n == self.class_names@.len(),
                self.inv(),
                self.cfg() == old(self).cfg(),
                class_models(self.class_names@).to_multiset() == class_models(
                    old(self).class_names@,
                ).to_multiset(),
                forall|a: int, b: int|
                    0 <= a < b < i ==> (#[trigger] self.class_names@[a]).model().score <= (
                    #[trigger] self.class_names@[b]).model().score,
            decreases n - i,
        {
            let ghost before = self.class_names@;
            let item = self.class_names.remove(i);
            let mut j: usize = 0;
            let mut stop = false;
            while j < i && !stop
                invariant
                    0 <= j <= i,
                    i < n,
                    n == self.class_names@.len() + 1,
                    forall|a: int|
                        0 <= a < j ==> (#[trigger] self.class_names@[a]).model().score
                            <= item.model().score,
                    stop ==> j < i && self.class_names@[j as int].model().score
                        > item.model().score,
                decreases i - j + (if stop {
                    0int
                } else {
                    1int
                }),
            {
                if self.class_names[j].score > item.score {
                    stop = true;
                } else {
                    j = j + 1;
                }
            }
            self.class_names.insert(j, item);
            proof {
                let mid = before.remove(i as int);
                assert(class_models(mid) =~= class_models(before).remove(i as int));
                assert(class_models(before).remove(i as int).to_multiset() == class_models(
                    before,
                ).to_multiset().remove(class_models(before)[i as int]));
                assert(class_models(before)[i as int] == item.model());
                assert(self.class_names@ == mid.insert(j as int, item));
                assert(class_models(mid.insert(j as int, item)) =~= class_models(mid).insert(
                    j as int,
                    item.model(),
                ));
                crate::scanner::class_name::lemma_insert_multiset(
                    class_models(mid),
                    j as int,
                    item.model(),
                );
                assert(class_models(mid).push(item.model()).to_multiset() == class_models(
                    mid,
                ).to_multiset().insert(item.model()));
                assert(class_models(before).to_multiset().contains(item.model())) by {
                    assert(class_models(before).contains(class_models(before)[i as int]));
                }
                assert(class_models(self.class_names@).to_multiset() =~= class_models(
                    before,
                ).to_multiset());
                assert forall|a: int, b: int| 0 <= a < b < i + 1 implies (
                #[trigger] self.class_names@[a]).model().score <= (
                #[trigger] self.class_names@[b]).model().score by {
                    let pre = self.class_names@.remove(j as int);
                    assert(forall|w: int|
                        0 <= w < self.class_names@.len() ==> #[trigger] self.class_names@[w]
                            == (if w < j {
                            pre[w]
                        } else if w == j {
                            item
                        } else {
                            pre[w - 1]
                        }));
                }
            }
            i = i + 1;
        }
    }
}

impl<'c> ClassNameCollector<'c> {
    /// Evaluate a literal to the string the argument machinery takes:
    /// numbers and big integers read as pixel measurements.
    fn get_literal_string_value(e: &Expr) -> (r: Option<String>)
        ensures
            match r {
                Some(v) => spec_literal_string(*e) == Some(v@),
                None => spec_literal_string(*e) is None,
            },
    {
        match e {
            Expr::Lit(lit) => match lit {
                Lit::Str(svalue) => Some(svalue.clone()),
                Lit::Num(n) => {
                    let mut out = n.clone();
                    out.append("px");
                    Some(out)
                },
                Lit::BigInt(n) => {
                    let mut out = n.clone();
                    out.append("px");
                    Some(out)
                },
                Lit::Bool(b) => {
                    if *b {
                        Some(String::from_str("true"))
                    } else {
                        Some(String::from_str("false"))
                    }
                },
            },
            _ => None,
        }
    }

    /// Record the identifier bound by an import that matches a tracked
    /// package and imported name; type-only imports are ignored.
    #[verifier::loop_isolation(false)]
    fn collect_matching_import(&mut self, node: &ImportDecl)
        requires
            old(self).inv(),
        ensures
            final(self).inv(),
            final(self).cfg() == old(self).cfg(),
            final(self).class_names@ == old(self).class_names@,
            final(self).valid_imports == old(self).valid_imports,
            import_post(
                old(self).valid_imports@,
                old(self).import_ids@,
                final(self).import_ids@,
                *node,
            ),
    {
        let ghost pkgs = package_views(self.valid_imports@);
        let mut found: Option<usize> = None;
        let mut i: usize = 0;
        proof {
            crate::utils::lemma_find_view(pkgs, node.src@);
        }
        while i < self.valid_imports.len()
            invariant
                0 <= i <= self.valid_imports@.len(),
                match found {
                    Some(f) => crate::utils::find_view(pkgs, node.src@) == Some(f as int) && f
                        < self.valid_imports@.len(),
                    None => forall|w: int| 0 <= w < i ==> #[trigger] pkgs[w] != node.src@,
                },
            decreases self.valid_imports@.len() - i,
        {
            if str_eq(self.valid_imports[i].package_name.as_str(), node.src.as_str()) {
                if matches!(found, None) {
                    proof {
                        assert(pkgs[i as int] == node.src@);
                        crate::utils::lemma_find_view(pkgs, node.src@);
                        match crate::utils::find_view(pkgs, node.src@) {
                            Some(f) => {
                                assert(f == i);
                            },
                            None => {
                                assert(false);
                            },
                        }
                    }
                    found = Some(i);
                }
            } else {
                proof {
                    assert(pkgs[i as int] != node.src@);
                }
            }
            i = i + 1;
        }
        proof {
            if found is None {
                crate::utils::lemma_find_view(pkgs, node.src@);
            }
        }
        if node.type_only {
            return ;
        }
        let vi = match found {
            Some(f) => f,
            None => {
                return ;
            },
        };
        let import_name = self.valid_imports[vi].import_name.clone();
        let ghost specs = node.specifiers@;
        let mut identifier: Option<Ident> = None;
        let mut j: usize = 0;
        proof {
            assert(specs.take(0int) =~= Seq::<ImportSpecifier>::empty());
        }
        while j < node.specifiers.len()
            invariant
                0 <= j <= specs.len(),
                specs == node.specifiers@,
                match identifier {
                    Some(id) => last_specifier_match(specs.take(j as int), import_name@) == Some(
                        (id.sym@, id.ctxt),
                    ),
                    None => last_specifier_match(specs.take(j as int), import_name@) is None,
                },
            decreases node.specifiers@.len() - j,
        {
            proof {
                assert(specs.take(j + 1 as int).drop_last() =~= specs.take(j as int));
                assert(specs.take(j + 1 as int).last() == specs[j as int]);
                reveal_strlit("*");
            }
            match &node.specifiers[j] {
                ImportSpecifier::Named { local, imported } => {
                    let mut valid = true;
                    let mut is_import_as = false;
                    match imported {
                        Some(imported_name) => {
                            is_import_as = true;
                            valid = str_eq(imported_name.as_str(), import_name.as_str());
                        },
                        None => {},
                    }
                    if valid && (is_import_as || str_eq(
                        local.sym.as_str(),
                        import_name.as_str(),
                    )) {
                        identifier = Some(local.dup());
                    }
                },
                ImportSpecifier::Namespace { local } => {
                    if str_eq(import_name.as_str(), "*") {
                        identifier = Some(local.dup());
                    }
                },
                ImportSpecifier::Default { local } => {
                    if import_name.as_str().unicode_len() == 0 {
                        identifier = Some(local.dup());
                    }
                },
            }
            j = j + 1;
        }
        proof {
            assert(specs.take(specs.len() as int) =~= specs);
        }
        match identifier {
            Some(item) => {
                let ghost pre = self.import_ids@;
                self.import_ids.push(item);
                proof {
                    assert(self.import_ids@.take(pre.len() as int) =~= pre);
                }
            },
            None => {},
        }
    }

    /// Collect a member expression when its root is tracked; an untracked
    /// root contributes nothing.
    fn collect_member_expression(&mut self, member: &Expr)
        requires
            old(self).inv(),
        ensures
            final(self).inv(),
            final(self).cfg() == old(self).cfg(),
            final(self).import_ids@ == old(self).import_ids@,
            final(self).valid_imports == old(self).valid_imports,
            member_scan_post(
                old(self).cfg(),
                old(self).import_ids@,
                old(self).class_names@,
                final(self).class_names@,
                *member,
            ),
    {
        let class_name = ClassName::from_member_expression(
            self.config,
            member,
            &self.import_ids,
        );
        match class_name {
            Some(c) => {
                self.insert_class_name(c);
            },
            None => {},
        }
    }

    /// Collect the class names of one expression: member chains and calls
    /// are resolved, object literals contribute their computed keys and
    /// values, and any other construct is searched child by child. A call
    /// of a tracked chain or identifier takes its literal arguments; a
    /// call of any other shape is searched for nested class names.
    #[verifier::loop_isolation(false)]
    #[verifier::rlimit(100)]
    pub fn collect_class_names(&mut self, e: &Expr)
        requires
            old(self).inv(),
        ensures
            final(self).inv(),
            final(self).cfg() == old(self).cfg(),
            final(self).import_ids@ == old(self).import_ids@,
            final(self).valid_imports == old(self).valid_imports,
            grows(old(self).class_names@, final(self).class_names@),
            expr_scan_post(
                old(self).cfg(),
                old(self).import_ids@,
                old(self).class_names@,
                final(self).class_names@,
                *e,
            ),
        decreases *e,
    {
        proof {
            lemma_grows_refl(self.class_names@);
        }
        broadcast use vstd::std_specs::vec::group_vec_axioms;

        match e {
            Expr::Member(_, _) => {
                self.collect_member_expression(e);
            },
            Expr::Call(callee, args) => {
                let mut class_name: ClassName<'c>;
                match &**callee {
                    Expr::Member(_, _) => {
                        match ClassName::from_member_expression(
                            self.config,
                            callee,
                            &self.import_ids,
                        ) {
                            Some(c) => {
                                class_name = c;
                            },
                            None => {
                                return ;
                            },
                        }
                    },
                    Expr::Ident(id) => {
                        if is_root_identifier(&self.import_ids, id) {
                            class_name = ClassName::new(self.config);
                            proof {
                                assert(crate::scanner::class_name::add_tokens_rel(
                                    self.cfg(),
                                    crate::scanner::class_name::empty_model(),
                                    class_name.model(),
                                    Seq::<Seq<char>>::empty(),
                                ));
                            }
                        } else {
                            proof {
                                assert(decreases_to!(*e => *callee));
                            }
                            self.collect_class_names(callee);
                            let mut k: usize = 0;
                            while k < args.len()
                                invariant
                                    self.inv(),
                                    self.cfg() == old(self).cfg(),
                                    self.import_ids@ == old(self).import_ids@,
                                    self.valid_imports == old(self).valid_imports,
                                    grows(old(self).class_names@, self.class_names@),
                                    0 <= k <= args@.len(),
                                decreases args@.len() - k,
                            {
                                proof {
                                    let ghost ev = *e;
                                    match ev {
                                        Expr::Call(c2, a2) => {
                                            assert(decreases_to!(ev => a2));
                                            assert(a2 == *args);
                                        },
                                        _ => {},
                                    }
                                    assert(decreases_to!(*args => args@[k as int]));
                                }
                                let ghost mid_names = self.class_names@;
                                self.collect_class_names(&args[k]);
                                proof {
                                    lemma_grows_trans(
                                        old(self).class_names@,
                                        mid_names,
                                        self.class_names@,
                                    );
                                }
                                k = k + 1;
                            }
                            return ;
                        }
                    },
                    _ => {
                        proof {
                            assert(decreases_to!(*e => *callee));
                        }
                        self.collect_class_names(callee);
                        let mut k: usize = 0;
                        while k < args.len()
                            invariant
                                self.inv(),
                                self.cfg() == old(self).cfg(),
                                self.import_ids@ == old(self).import_ids@,
                                self.valid_imports == old(self).valid_imports,
                                grows(old(self).class_names@, self.class_names@),
                                0 <= k <= args@.len(),
                            decreases args@.len() - k,
                        {
                            proof {
                                let ghost ev = *e;
                                match ev {
                                    Expr::Call(c2, a2) => {
                                        assert(decreases_to!(ev => a2));
                                        assert(a2 == *args);
                                    },
                                    _ => {},
                                }
                                assert(decreases_to!(*args => args@[k as int]));
                            }
                            let ghost mid_names = self.class_names@;
                            self.collect_class_names(&args[k]);
                            proof {
                                lemma_grows_trans(
                                    old(self).class_names@,
                                    mid_names,
                                    self.class_names@,
                                );
                            }
                            k = k + 1;
                        }
                        return ;
                    },
                }
                let ghost m0 = class_name.model();
                if args.len() == 1 {
                    let value = match Self::get_literal_string_value(&args[0]) {
                        Some(v) => v,
                        None => {
                            return ;
                        },
                    };
                    let ghost vlit = spec_literal_string(args@[0])->Some_0;
                    class_name.add_arguments(ClassArguments::from_value(value.as_str()));
                    proof {
                        assert(crate::scanner::class_name::add_arguments_post(
                            self.cfg(),
                            m0,
                            class_name.model(),
                            (
                                None,
                                crate::utils::spec_escape_css(
                                    crate::scanner::class_name::spec_trim(vlit),
                                ),
                            ),
                        ));
                    }
                } else if args.len() == 2 {
                    let key = match Self::get_literal_string_value(&args[0]) {
                        Some(v) => v,
                        None => {
                            return ;
                        },
                    };
                    let value = match Self::get_literal_string_value(&args[1]) {
                        Some(v) => v,
                        None => {
                            return ;
                        },
                    };
                    let ghost klit = spec_literal_string(args@[0])->Some_0;
                    let ghost vlit = spec_literal_string(args@[1])->Some_0;
                    class_name.add_arguments(
                        ClassArguments::from_key_value(key.as_str(), value.as_str()),
                    );
                    proof {
                        assert(crate::scanner::class_name::add_arguments_post(
                            self.cfg(),
                            m0,
                            class_name.model(),
                            (
                                Some(
                                    crate::utils::spec_escape_css(
                                        crate::scanner::class_name::spec_trim(klit),
                                    ),
                                ),
                                crate::utils::spec_escape_css(
                                    crate::scanner::class_name::spec_trim(vlit),
                                ),
                            ),
                        ));
                    }
                } else {
                    return ;
                }
                self.insert_class_name(class_name);
            },
            Expr::Object(entries) => {
                let mut i: usize = 0;
                while i < entries.len()
                    invariant
                        self.inv(),
                        self.cfg() == old(self).cfg(),
                        self.import_ids@ == old(self).import_ids@,
                        self.valid_imports == old(self).valid_imports,
                        grows(old(self).class_names@, self.class_names@),
                        0 <= i <= entries@.len(),
                    decreases entries@.len() - i,
                {
                    match &entries[i] {
                        ObjectEntry::KeyValue(computed_key, value) => {
                            proof {
                                let ghost ev = *e;
                                match ev {
                                    Expr::Object(e2) => {
                                        assert(decreases_to!(ev => e2));
                                        assert(e2 == *entries);
                                    },
                                    _ => {},
                                }
                                assert(decreases_to!(*entries => entries@[i as int]));
                            }
                            proof {
                                let ghost en = entries@[i as int];
                                match en {
                                    ObjectEntry::KeyValue(k2, v2) => {
                                        assert(decreases_to!(en => k2));
                                        assert(decreases_to!(en => v2));
                                    },
                                    _ => {},
                                }
                            }
                            match computed_key {
                                Some(key_expr) => {
                                    let ghost mid0 = self.class_names@;
                                    self.collect_class_names(key_expr);
                                    proof {
                                        lemma_grows_trans(
                                            old(self).class_names@,
                                            mid0,
                                            self.class_names@,
                                        );
                                    }
                                },
                                None => {},
                            }
                            let ghost mid1 = self.class_names@;
                            self.collect_class_names(value);
                            proof {
                                lemma_grows_trans(
                                    old(self).class_names@,
                                    mid1,
                                    self.class_names@,
                                );
                            }
                        },
                        ObjectEntry::Other => {
                            return ;
                        },
                    }
                    i = i + 1;
                }
            },
            Expr::Other(children) => {
                let mut i: usize = 0;
                while i < children.len()
                    invariant
                        self.inv(),
                        self.cfg() == old(self).cfg(),
                        self.import_ids@ == old(self).import_ids@,
                        self.valid_imports == old(self).valid_imports,
                        grows(old(self).class_names@, self.class_names@),
                        0 <= i <= children@.len(),
                    decreases children@.len() - i,
                {
                    proof {
                        let ghost ev = *e;
                        match ev {
                            Expr::Other(c2) => {
                                assert(decreases_to!(ev => c2));
                                assert(c2 == *children);
                            },
                            _ => {},
                        }
                        assert(decreases_to!(*children => children@[i as int]));
                    }
                    let ghost mid_names = self.class_names@;
                    self.collect_class_names(&children[i]);
                    proof {
                        lemma_grows_trans(old(self).class_names@, mid_names, self.class_names@);
                    }
                    i = i + 1;
                }
            },
            _ => {},
        }
    }

    /// Walk the items of a source file in order: imports register their
    /// identifiers, expressions are scanned, nested blocks recurse.
    #[verifier::loop_isolation(false)]
    pub fn visit_items(&mut self, items: &Vec<SourceItem>)
        requires
            old(self).inv(),
        ensures
            final(self).inv(),
            final(self).cfg() == old(self).cfg(),
            final(self).valid_imports == old(self).valid_imports,
            grows(old(self).class_names@, final(self).class_names@),
            items_rel(
                old(self).cfg(),
                old(self).valid_imports@,
                old(self).import_ids@,
                old(self).class_names@,
                final(self).import_ids@,
                final(self).class_names@,
                items@,
            ),
        decreases items@,
    {
        broadcast use vstd::std_specs::vec::group_vec_axioms;

        proof {
            lemma_grows_refl(self.class_names@);
            assert(items@.take(0int) =~= Seq::<SourceItem>::empty());
        }
        let mut i: usize = 0;
        while i < items.len()
            invariant
                self.inv(),
                self.cfg() == old(self).cfg(),
                self.valid_imports == old(self).valid_imports,
                grows(old(self).class_names@, self.class_names@),
                items_rel(
                    old(self).cfg(),
                    old(self).valid_imports@,
                    old(self).import_ids@,
                    old(self).class_names@,
                    self.import_ids@,
                    self.class_names@,
                    items@.take(i as int),
                ),
                0 <= i <= items@.len(),
            decreases items@.len() - i,
        {
            let ghost mid_ids = self.import_ids@;
            let ghost mid_names = self.class_names@;
            match &items[i] {
                SourceItem::Import(decl) => {
                    self.collect_matching_import(decl);
                },
                SourceItem::Expression(e) => {
                    self.collect_class_names(e);
                },
                SourceItem::Block(inner) => {
                    proof {
                        assert(decreases_to!(items@ => items@[i as int]));
                        assert(decreases_to!(items@[i as int] => inner@));
                    }
                    self.visit_items(inner);
                },
            }
            proof {
                assert(item_step(
                    old(self).cfg(),
                    old(self).valid_imports@,
                    mid_ids,
                    mid_names,
                    self.import_ids@,
                    self.class_names@,
                    items@[i as int],
                ));
                lemma_items_snoc(
                    old(self).cfg(),
                    old(self).valid_imports@,
                    old(self).import_ids@,
                    old(self).class_names@,
                    mid_ids,
                    mid_names,
                    self.import_ids@,
                    self.class_names@,
                    items@.take(i as int),
                    items@[i as int],
                );
                assert(items@.take(i as int).push(items@[i as int]) =~= items@.take(i + 1 as int));
                lemma_grows_refl(self.class_names@);
                lemma_grows_trans(old(self).class_names@, mid_names, self.class_names@);
            }
            i = i + 1;
        }
        proof {
            assert(items@.take(items@.len() as int) =~= items@);
        }
    }
}

} // verus!
