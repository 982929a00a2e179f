//! Semantic checks on a parsed grammar: rule names are defined once, every identifier
//! names a defined rule, and no alternative of a `|` mixes different rules.
use vstd::prelude::*;
use crate::gen_syntax::tokens::{Token, TokenKind};
use crate::gen_syntax::parse::{
    ErrorKindModel, ErrorModel, ParseError, ParseErrorKind, Production, ProductionIterator,
    preorder,
};

verus! {

/// A rule name defined by a grammar.
#[derive(Clone, Debug)]
pub struct Symbol {
    name: String,
}

impl Symbol {
    /// The name of the symbol.
    pub closed spec fn spec_name(&self) -> Seq<char> {
        self.name@
    }

    fn new(name: &str) -> (s: Symbol)
        ensures
            s.spec_name() == name@,
    {
        Symbol { name: name.to_owned() }
    }

    /// The name of the symbol.
    pub fn name(&self) -> (n: &str)
        ensures
            n@ == self.spec_name(),
    {
        self.name.as_str()
    }
}

/// What code generation needs from a valid grammar: its symbols.
#[derive(Debug)]
pub struct CodeGenContext {
    symbols: Vec<Symbol>,
}

impl CodeGenContext {
    /// The names of the symbols, in the order the rules define them.
    pub closed spec fn symbol_names(&self) -> Seq<Seq<char>> {
        self.symbols@.map_values(|s: Symbol| s.spec_name())
    }

    /// The symbols, in the order the rules define them.
    pub fn symbols(&self) -> (s: &Vec<Symbol>)
        ensures
            s@.map_values(|x: Symbol| x.spec_name()) == self.symbol_names(),
    {
        &self.symbols
    }
}

/// The characters of `source` that `token` covers.
pub open spec fn lexeme(source: Seq<char>, token: Token) -> Seq<char> {
    source.subrange(token.offset as int, token.offset + token.length)
}

/// `token` lies within a text of `len` characters.
pub open spec fn token_within(token: Token, len: nat) -> bool {
    token.offset + token.length <= len
}

/// Every rule name and referenced rule of `nodes` lies within a text of `len` characters.
pub open spec fn names_within(nodes: Seq<Production>, len: nat) -> bool {
    forall|i: int|
        0 <= i < nodes.len() ==> match #[trigger] nodes[i] {
            Production::Rule { name, production: _ } => token_within(name, len),
            Production::Identifier { rule_name, member_name: _ } => token_within(rule_name, len),
            _ => true,
        }
}

/// Defines the rule names of `nodes` in order: the distinct names, and an error for
/// each name defined again.
pub open spec fn define_symbols_spec(nodes: Seq<Production>, source: Seq<char>) -> (
    Seq<Seq<char>>,
    Seq<ErrorModel>,
)
    decreases nodes.len(),
{
    if nodes.len() == 0 {
        (Seq::empty(), Seq::empty())
    } else {
        let (symbols, errors) = define_symbols_spec(nodes.drop_last(), source);
        match nodes.last() {
            Production::Rule { name, production: _ } => {
                let lx = lexeme(source, name);
                if symbols.contains(lx) {
                    (symbols, errors.push((name, ErrorKindModel::DuplicateSymbol { symbol: lx })))
                } else {
                    (symbols.push(lx), errors)
                }
            },
            _ => (symbols, errors),
        }
    }
}

/// An error for each identifier of `nodes` that names no symbol of `symbols`.
pub open spec fn undefined_symbols_spec(
    nodes: Seq<Production>,
    source: Seq<char>,
    symbols: Seq<Seq<char>>,
) -> Seq<ErrorModel>
    decreases nodes.len(),
{
    if nodes.len() == 0 {
        Seq::empty()
    } else {
        let errors = undefined_symbols_spec(nodes.drop_last(), source, symbols);
        match nodes.last() {
            Production::Identifier { rule_name, member_name: _ } => {
                let lx = lexeme(source, rule_name);
                if symbols.contains(lx) {
                    errors
                } else {
                    errors.push((rule_name, ErrorKindModel::UndefinedSymbol { symbol: lx }))
                }
            },
            _ => errors,
        }
    }
}

/// The rule-name tokens of the identifiers among `nodes`, in order.
pub open spec fn identifier_tokens(nodes: Seq<Production>) -> Seq<Token>
    decreases nodes.len(),
{
    if nodes.len() == 0 {
        Seq::empty()
    } else {
        let tokens = identifier_tokens(nodes.drop_last());
        match nodes.last() {
            Production::Identifier { rule_name, member_name: _ } => tokens.push(rule_name),
            _ => tokens,
        }
    }
}

/// Some identifier of `ids` names a different rule than the first.
pub open spec fn mixes_rules(ids: Seq<Token>, source: Seq<char>) -> bool {
    exists|j: int| 0 <= j < ids.len() && #[trigger] lexeme(source, ids[j]) != lexeme(source, ids[0])
}

/// An error at the first identifier of each option of `options` that mixes rules.
pub open spec fn ambiguous_options_spec(options: Seq<Production>, source: Seq<char>) -> Seq<
    ErrorModel,
>
    decreases options.len(),
{
    if options.len() == 0 {
        Seq::empty()
    } else {
        let errors = ambiguous_options_spec(options.drop_last(), source);
        let ids = identifier_tokens(preorder(options.last()));
        if mixes_rules(ids, source) {
            errors.push((ids[0], ErrorKindModel::AmbiguousPipe))
        } else {
            errors
        }
    }
}

/// The ambiguous-option errors of every `|` among `nodes`, in order.
pub open spec fn ambiguous_pipes_spec(nodes: Seq<Production>, source: Seq<char>) -> Seq<
    ErrorModel,
>
    decreases nodes.len(),
{
    if nodes.len() == 0 {
        Seq::empty()
    } else {
        let errors = ambiguous_pipes_spec(nodes.drop_last(), source);
        match nodes.last() {
            Production::Pipe(options) => errors + ambiguous_options_spec(options@, source),
            _ => errors,
        }
    }
}

/// All semantic errors of the grammar rooted at `root`: duplicate rule names, then
/// undefined identifiers, then ambiguous alternatives.
pub open spec fn semantic_errors(root: Production, source: Seq<char>) -> Seq<ErrorModel> {
    let nodes = preorder(root);
    let (symbols, duplicates) = define_symbols_spec(nodes, source);
    duplicates + undefined_symbols_spec(nodes, source, symbols) + ambiguous_pipes_spec(
        nodes,
        source,
    )
}

/// The distinct rule names of the grammar rooted at `root`, in order of definition.
pub open spec fn defined_symbols(root: Production, source: Seq<char>) -> Seq<Seq<char>> {
    define_symbols_spec(preorder(root), source).0
}

proof fn lemma_define_symbols_distinct(nodes: Seq<Production>, source: Seq<char>)
    ensures
        define_symbols_spec(nodes, source).0.no_duplicates(),
        forall|i: int|
            0 <= i < nodes.len() ==> match #[trigger] nodes[i] {
                Production::Rule { name, production: _ } => define_symbols_spec(
                    nodes,
                    source,
                ).0.contains(lexeme(source, name)),
                _ => true,
            },
    decreases nodes.len(),
{
    if nodes.len() > 0 {
        let prefix = nodes.drop_last();
        lemma_define_symbols_distinct(prefix, source);
        let before = define_symbols_spec(prefix, source).0;
        let after = define_symbols_spec(nodes, source).0;
        assert(after == before || exists|y: Seq<char>| after == before.push(y));
        assert forall|x: Seq<char>| before.contains(x) implies after.contains(x) by {
            let j = choose|j: int| 0 <= j < before.len() && before[j] == x;
            assert(after[j] == x);
        }
        assert forall|i: int| 0 <= i < nodes.len() implies match #[trigger] nodes[i] {
            Production::Rule { name, production: _ } => after.contains(lexeme(source, name)),
            _ => true,
        } by {
            if i < nodes.len() - 1 {
                assert(nodes[i] == prefix[i]);
            } else {
                match nodes.last() {
                    Production::Rule { name, production: _ } => {
                        if !before.contains(lexeme(source, name)) {
                            assert(after[after.len() - 1] == lexeme(source, name));
                        }
                    },
                    _ => {},
                }
            }
        }
    }
}

/// The symbols of a grammar are distinct, and every rule of the grammar defines one
/// of them.
pub proof fn law_symbols_are_distinct_and_complete(root: Production, source: Seq<char>)
    ensures
        defined_symbols(root, source).no_duplicates(),
        forall|i: int|
            0 <= i < preorder(root).len() ==> match #[trigger] preorder(root)[i] {
                Production::Rule { name, production: _ } => defined_symbols(root, source).contains(
                    lexeme(source, name),
                ),
                _ => true,
            },
{
    lemma_define_symbols_distinct(preorder(root), source);
}

/// The rule name `n` defines, if it is a rule.
pub open spec fn rule_lexeme(n: Production, source: Seq<char>) -> Option<Seq<char>> {
    match n {
        Production::Rule { name, production: _ } => Some(lexeme(source, name)),
        _ => None,
    }
}

/// Some rule among `nodes` is named `x`.
pub open spec fn defines(nodes: Seq<Production>, source: Seq<char>, x: Seq<char>) -> bool {
    exists|i: int| 0 <= i < nodes.len() && #[trigger] rule_lexeme(nodes[i], source) == Some(x)
}

/// No two rules among `nodes` have the same name.
pub open spec fn rule_names_unique(nodes: Seq<Production>, source: Seq<char>) -> bool {
    forall|i: int, j: int|
        0 <= i < j < nodes.len() && (#[trigger] rule_lexeme(nodes[i], source)) is Some ==> rule_lexeme(
            nodes[i],
            source,
        ) != #[trigger] rule_lexeme(nodes[j], source)
}

/// Every identifier among `nodes` names a rule among `nodes`.
pub open spec fn references_defined(nodes: Seq<Production>, source: Seq<char>) -> bool {
    forall|i: int|
        0 <= i < nodes.len() ==> match #[trigger] nodes[i] {
            Production::Identifier { rule_name, member_name: _ } => defines(nodes, source, lexeme(source, rule_name)),
            _ => true,
        }
}

/// No option of a `|` among `nodes` names two different rules.
pub open spec fn pipes_unambiguous(nodes: Seq<Production>, source: Seq<char>) -> bool {
    forall|i: int|
        0 <= i < nodes.len() ==> match #[trigger] nodes[i] {
            Production::Pipe(options) => forall|k: int|
                0 <= k < options@.len() ==> !mixes_rules(identifier_tokens(preorder(#[trigger] options@[k])), source),
            _ => true,
        }
}

/// The names defined along `nodes` are the names of its rules, and no name is defined
/// again exactly when the rule names are unique.
proof fn lemma_define_symbols_iff(nodes: Seq<Production>, source: Seq<char>)
    ensures
        forall|x: Seq<char>| define_symbols_spec(nodes, source).0.contains(x) <==> defines(nodes, source, x),
        define_symbols_spec(nodes, source).1.len() == 0 <==> rule_names_unique(nodes, source),
    decreases nodes.len(),
{
    if nodes.len() == 0 {
        assert forall|x: Seq<char>| define_symbols_spec(nodes, source).0.contains(x) <==> defines(nodes, source, x) by {}
    } else {
        let prefix = nodes.drop_last();
        let last = nodes.last();
        lemma_define_symbols_iff(prefix, source);
        let (before, errs) = define_symbols_spec(prefix, source);
        let after = define_symbols_spec(nodes, source).0;
        assert forall|x: Seq<char>| defines(prefix, source, x) ==> defines(nodes, source, x) by {
            if defines(prefix, source, x) {
                let i = choose|i: int| 0 <= i < prefix.len() && #[trigger] rule_lexeme(prefix[i], source) == Some(x);
                assert(rule_lexeme(nodes[i], source) == Some(x));
            }
        }
        assert forall|x: Seq<char>| defines(nodes, source, x) ==> defines(prefix, source, x) || rule_lexeme(last, source)
            == Some(x) by {
            if defines(nodes, source, x) {
                let i = choose|i: int| 0 <= i < nodes.len() && #[trigger] rule_lexeme(nodes[i], source) == Some(x);
                if i < prefix.len() {
                    assert(rule_lexeme(prefix[i], source) == Some(x));
                }
            }
        }
        assert forall|x: Seq<char>| after.contains(x) <==> defines(nodes, source, x) by {
            match last {
                Production::Rule { name, production: _ } => {
                    let lx = lexeme(source, name);
                    assert(rule_lexeme(nodes[nodes.len() - 1], source) == Some(lx));
                    if !before.contains(lx) {
                        assert(after == before.push(lx));
                        if after.contains(x) {
                            let j = choose|j: int| 0 <= j < after.len() && after[j] == x;
                            if j < before.len() {
                                assert(before[j] == x);
                            }
                        }
                        if before.contains(x) {
                            let j = choose|j: int| 0 <= j < before.len() && before[j] == x;
                            assert(after[j] == x);
                        }
                        if x == lx {
                            assert(after[before.len() as int] == x);
                        }
                    }
                },
                _ => {},
            }
        }
        // Unique names.
        let errs_after = define_symbols_spec(nodes, source).1;
        if rule_names_unique(nodes, source) {
            assert(rule_names_unique(prefix, source)) by {
                assert forall|i: int, j: int|
                    0 <= i < j < prefix.len() && (#[trigger] rule_lexeme(prefix[i], source)) is Some implies rule_lexeme(
                    prefix[i],
                    source,
                ) != #[trigger] rule_lexeme(prefix[j], source) by {
                    assert(rule_lexeme(nodes[i], source) == rule_lexeme(prefix[i], source));
                    assert(rule_lexeme(nodes[j], source) == rule_lexeme(prefix[j], source));
                }
            }
            match last {
                Production::Rule { name, production: _ } => {
                    let lx = lexeme(source, name);
                    if before.contains(lx) {
                        assert(defines(prefix, source, lx));
                        let i = choose|i: int| 0 <= i < prefix.len() && #[trigger] rule_lexeme(prefix[i], source) == Some(lx);
                        assert(prefix[i] == nodes[i]);
                        assert(rule_lexeme(nodes[i], source) == Some(lx));
                        assert(rule_lexeme(nodes[nodes.len() - 1], source) == Some(lx));
                        assert(false);
                    }
                },
                _ => {},
            }
        } else {
            let (i, j) = choose|i: int, j: int|
                0 <= i < j < nodes.len() && (#[trigger] rule_lexeme(nodes[i], source)) is Some && rule_lexeme(
                    nodes[i],
                    source,
                ) == #[trigger] rule_lexeme(nodes[j], source);
            if j < prefix.len() {
                assert(rule_lexeme(prefix[i], source) == rule_lexeme(nodes[i], source));
                assert(rule_lexeme(prefix[j], source) == rule_lexeme(nodes[j], source));
                assert(!rule_names_unique(prefix, source));
                assert(errs_after.len() >= errs.len());
            } else {
                let x = rule_lexeme(nodes[i], source)->0;
                assert(rule_lexeme(prefix[i], source) == Some(x));
                assert(defines(prefix, source, x));
                assert(before.contains(x));
                assert(errs_after.len() == errs.len() + 1);
            }
        }
    }
}

/// No identifier is undefined exactly when every identifier names a symbol.
proof fn lemma_undefined_iff(nodes: Seq<Production>, source: Seq<char>, symbols: Seq<Seq<char>>)
    ensures
        undefined_symbols_spec(nodes, source, symbols).len() == 0 <==> forall|i: int|
            0 <= i < nodes.len() ==> match #[trigger] nodes[i] {
                Production::Identifier { rule_name, member_name: _ } => symbols.contains(lexeme(source, rule_name)),
                _ => true,
            },
    decreases nodes.len(),
{
    if nodes.len() > 0 {
        let prefix = nodes.drop_last();
        lemma_undefined_iff(prefix, source, symbols);
        assert forall|i: int| 0 <= i < prefix.len() implies prefix[i] == nodes[i] by {}
    }
}

/// No option is ambiguous exactly when no option names two different rules.
proof fn lemma_ambiguous_options_iff(options: Seq<Production>, source: Seq<char>)
    ensures
        ambiguous_options_spec(options, source).len() == 0 <==> forall|k: int|
            0 <= k < options.len() ==> !mixes_rules(identifier_tokens(preorder(#[trigger] options[k])), source),
    decreases options.len(),
{
    if options.len() > 0 {
        let prefix = options.drop_last();
        lemma_ambiguous_options_iff(prefix, source);
        assert forall|k: int| 0 <= k < prefix.len() implies prefix[k] == options[k] by {}
    }
}

/// No `|` is ambiguous exactly when the pipes are unambiguous.
proof fn lemma_ambiguous_pipes_iff(nodes: Seq<Production>, source: Seq<char>)
    ensures
        ambiguous_pipes_spec(nodes, source).len() == 0 <==> pipes_unambiguous(nodes, source),
    decreases nodes.len(),
{
    if nodes.len() > 0 {
        let prefix = nodes.drop_last();
        lemma_ambiguous_pipes_iff(prefix, source);
        assert forall|i: int| 0 <= i < prefix.len() implies prefix[i] == nodes[i] by {}
        match nodes.last() {
            Production::Pipe(options) => {
                lemma_ambiguous_options_iff(options@, source);
            },
            _ => {},
        }
    }
}

/// A grammar passes the semantic checks exactly when its rule names are unique, every
/// identifier names one of its rules, and no option of a `|` names two different rules.
pub proof fn law_valid_exactly_when_consistent(root: Production, source: Seq<char>)
    ensures
        semantic_errors(root, source).len() == 0 <==> {
            let nodes = preorder(root);
            &&& rule_names_unique(nodes, source)
            &&& references_defined(nodes, source)
            &&& pipes_unambiguous(nodes, source)
        },
{
    let nodes = preorder(root);
    lemma_define_symbols_iff(nodes, source);
    let symbols = define_symbols_spec(nodes, source).0;
    lemma_undefined_iff(nodes, source, symbols);
    lemma_ambiguous_pipes_iff(nodes, source);
    assert((forall|i: int|
        0 <= i < nodes.len() ==> match #[trigger] nodes[i] {
            Production::Identifier { rule_name, member_name: _ } => symbols.contains(lexeme(source, rule_name)),
            _ => true,
        }) <==> references_defined(nodes, source));
}

/// The errors of `errors`, abstracted.
pub open spec fn error_models(errors: Seq<ParseError>) -> Seq<ErrorModel> {
    errors.map_values(|e: ParseError| e@)
}

fn lexeme_of(source: &str, token: Token) -> (s: String)
    requires
        token_within(token, source@.len()),
    ensures
        s@ == lexeme(source@, token),
{
    let n = source.unicode_len();
    source.substring_char(token.offset, token.offset + token.length).to_owned()
}

fn find_symbol(symbols: &Vec<Symbol>, name: &String) -> (found: bool)
    ensures
        found == symbols@.map_values(|s: Symbol| s.spec_name()).contains(name@),
{
    let ghost names = symbols@.map_values(|s: Symbol| s.spec_name());
    let mut i: usize = 0;
    while i < symbols.len()
        invariant
            i <= symbols@.len(),
            names == symbols@.map_values(|s: Symbol| s.spec_name()),
            forall|j: int| 0 <= j < i ==> names[j] != name@,
        decreases symbols@.len() - i,
    {
        if string_equal(symbols[i].name.as_str(), name.as_str()) {
            assert(names[i as int] == name@);
            return true;
        }
        i = i + 1;
    }
    false
}

fn string_equal(a: &str, b: &str) -> (eq: bool)
    ensures
        eq == (a@ == b@),
{
    let n = a.unicode_len();
    let m = b.unicode_len();
    if n != m {
        return false;
    }
    let mut i: usize = 0;
    while i < n
        invariant
            n == a@.len(),
            m == b@.len(),
            n == m,
            i <= n,
            forall|j: int| 0 <= j < i ==> a@[j] == b@[j],
        decreases n - i,
    {
        if a.get_char(i) != b.get_char(i) {
            return false;
        }
        i = i + 1;
    }
    assert(a@ =~= b@);
    true
}


/// Every token that the checks read lies within a text of `len` characters: the rule
/// names and identifiers of the tree, and the identifiers inside each option of each `|`.
pub open spec fn checked_tokens_within(root: Production, len: nat) -> bool {
    let nodes = preorder(root);
    &&& names_within(nodes, len)
    &&& forall|k: int|
        0 <= k < nodes.len() ==> match #[trigger] nodes[k] {
            Production::Pipe(options) => forall|j: int|
                0 <= j < options@.len() ==> names_within(preorder(#[trigger] options@[j]), len),
            _ => true,
        }
}

proof fn lemma_pipe_option_checked(root: Production, len: nat, k: int, j: int)
    requires
        checked_tokens_within(root, len),
        0 <= k < preorder(root).len(),
        preorder(root)[k] is Pipe,
        0 <= j < preorder(root)[k]->Pipe_0@.len(),
    ensures
        names_within(preorder(preorder(root)[k]->Pipe_0@[j]), len),
{
    let nodes = preorder(root);
    assert(match nodes[k] {
        Production::Pipe(options) => forall|m: int|
            0 <= m < options@.len() ==> names_within(preorder(#[trigger] options@[m]), len),
        _ => true,
    });
}

fn token_fits(token: Token, len: usize) -> (b: bool)
    ensures
        b == token_within(token, len as nat),
{
    token.length <= len && token.offset <= len - token.length
}

fn node_names_within(node: &Production, len: usize) -> (b: bool)
    ensures
        b == match *node {
            Production::Rule { name, production: _ } => token_within(name, len as nat),
            Production::Identifier { rule_name, member_name: _ } => token_within(rule_name, len as nat),
            _ => true,
        },
{
    match node {
        Production::Rule { name, production: _ } => token_fits(*name, len),
        Production::Identifier { rule_name, member_name: _ } => token_fits(*rule_name, len),
        _ => true,
    }
}

fn all_names_within(root: &Production, len: usize) -> (b: bool)
    ensures
        b == names_within(preorder(*root), len as nat),
{
    let ghost all = preorder(*root);
    let mut it = root.iter();
    let mut ok = true;
    let ghost mut k: int = 0;
    loop
        invariant
            0 <= k <= all.len(),
            it.remaining() == all.subrange(k, all.len() as int),
            ok == names_within(all.take(k), len as nat),
        ensures
            ok == names_within(all, len as nat),
        decreases it.remaining().len(),
    {
        let ghost before = it.remaining();
        match it.next() {
            None => {
                proof {
                    assert(all.take(k) =~= all);
                }
                break;
            },
            Some(node) => {
                proof {
                    assert(*node == all[k]);
                }
                let fits = node_names_within(node, len);
                proof {
                    let prefix = all.take(k);
                    let next = all.take(k + 1);
                    assert(next =~= prefix.push(all[k]));
                    if ok && fits {
                        assert forall|i: int| 0 <= i < next.len() implies match #[trigger] next[i] {
                            Production::Rule { name, production: _ } => token_within(name, len as nat),
                            Production::Identifier { rule_name, member_name: _ } => token_within(rule_name, len as nat),
                            _ => true,
                        } by {
                            if i < k {
                                assert(next[i] == prefix[i]);
                            }
                        }
                    }
                    if !fits {
                        assert(next[k] == all[k]);
                    }
                    if !ok {
                        let bad = choose|i: int| 0 <= i < prefix.len() && !match #[trigger] prefix[i] {
                            Production::Rule { name, production: _ } => token_within(name, len as nat),
                            Production::Identifier { rule_name, member_name: _ } => token_within(rule_name, len as nat),
                            _ => true,
                        };
                        assert(next[bad] == prefix[bad]);
                    }
                    k = k + 1;
                    assert(it.remaining() =~= all.subrange(k, all.len() as int));
                }
                ok = ok && fits;
            },
        }
    }
    ok
}

/// Whether every rule name and referenced rule of the grammar rooted at `root`, the
/// alternatives of each `|` included, lies within a text of `len` characters.
pub fn tokens_within(root: &Production, len: usize) -> (b: bool)
    ensures
        b == checked_tokens_within(*root, len as nat),
{
    if !all_names_within(root, len) {
        return false;
    }
    let ghost all = preorder(*root);
    let mut it = root.iter();
    let ghost mut k: int = 0;
    loop
        invariant
            0 <= k <= all.len(),
            all == preorder(*root),
            names_within(all, len as nat),
            it.remaining() == all.subrange(k, all.len() as int),
            forall|i: int|
                0 <= i < k ==> match #[trigger] all[i] {
                    Production::Pipe(options) => forall|j: int|
                        0 <= j < options@.len() ==> names_within(preorder(#[trigger] options@[j]), len as nat),
                    _ => true,
                },
        ensures
            checked_tokens_within(*root, len as nat),
        decreases it.remaining().len(),
    {
        match it.next() {
            None => {
                proof {
                    assert(all.subrange(k, all.len() as int).len() == 0);
                    assert(k == all.len());
                }
                break;
            },
            Some(node) => {
                proof {
                    assert(*node == all[k]);
                }
                if let Production::Pipe(options) = node {
                    let mut j: usize = 0;
                    while j < options.len()
                        invariant
                            j <= options@.len(),
                            0 <= k < all.len(),
                            all == preorder(*root),
                            all[k] == *node,
                            *node == Production::Pipe(*options),
                            forall|m: int| 0 <= m < j ==> names_within(preorder(#[trigger] options@[m]), len as nat),
                        decreases options@.len() - j,
                    {
                        if !all_names_within(&options[j], len) {
                            proof {
                                let nodes = preorder(*root);
                                let o = *options;
                                assert(nodes[k] == Production::Pipe(o));
                                assert(!names_within(preorder(o@[j as int]), len as nat));
                                if checked_tokens_within(*root, len as nat) {
                                    lemma_pipe_option_checked(*root, len as nat, k, j as int);
                                }
                            }
                            return false;
                        }
                        j = j + 1;
                    }
                }
                proof {
                    k = k + 1;
                    assert(it.remaining() =~= all.subrange(k, all.len() as int));
                }
            },
        }
    }
    true
}

/// Checks a parsed grammar over its ASCII `source`: on success, the symbols it defines,
/// in order of definition; otherwise every duplicate rule name, then every undefined
/// identifier, then every option of a `|` that mixes different rules.
pub fn validate_semantics(root: &Production, source: &str) -> (r: Result<CodeGenContext, Vec<ParseError>>)
    requires
        crate::gen_syntax::tokens::all_ascii(source@),
        checked_tokens_within(*root, source@.len()),
    ensures
        semantic_errors(*root, source@).len() == 0 ==> r is Ok && r->Ok_0.symbol_names()
            == defined_symbols(*root, source@),
        semantic_errors(*root, source@).len() > 0 ==> r is Err && error_models(r->Err_0@)
            == semantic_errors(*root, source@),
{
    let mut symbols: Vec<Symbol> = Vec::new();
    let mut errors: Vec<ParseError> = Vec::new();
    let duplicates = define_symbols(&mut symbols, root, source);
    let undefined = check_undefined_symbols(&symbols, root, source);
    let ambiguous = check_ambiguous_pipes(root, source);
    extend(&mut errors, duplicates);
    extend(&mut errors, undefined);
    extend(&mut errors, ambiguous);
    proof {
        assert(error_models(errors@) =~= semantic_errors(*root, source@));
    }
    if errors.len() == 0 {
        Ok(build_code_gen_context(symbols))
    } else {
        Err(errors)
    }
}

fn extend(errors: &mut Vec<ParseError>, more: Vec<ParseError>)
    ensures
        error_models(final(errors)@) == error_models(old(errors)@) + error_models(more@),
{
    let ghost added = more@;
    let mut more = more;
    errors.append(&mut more);
    proof {
        assert(error_models(errors@) =~= error_models(old(errors)@) + error_models(added));
    }
}

fn build_code_gen_context(symbols: Vec<Symbol>) -> (c: CodeGenContext)
    ensures
        c.symbol_names() == symbols@.map_values(|s: Symbol| s.spec_name()),
{
    CodeGenContext { symbols }
}


/// Errors for the rule names of the tree rooted at `root` that are defined again;
/// `symbols` receives the distinct names in order.
fn define_symbols(symbols: &mut Vec<Symbol>, root: &Production, source: &str) -> (errors: Vec<
    ParseError,
>)
    requires
        old(symbols)@.len() == 0,
        names_within(preorder(*root), source@.len()),
    ensures
        (final(symbols)@.map_values(|s: Symbol| s.spec_name()), error_models(errors@))
            == define_symbols_spec(preorder(*root), source@),
{
    let mut errors: Vec<ParseError> = Vec::new();
    let mut it = root.iter();
    let ghost all = preorder(*root);
    let ghost mut done: Seq<Production> = Seq::empty();
    proof {
        assert(symbols@.map_values(|s: Symbol| s.spec_name()) =~= Seq::<Seq<char>>::empty());
        assert(error_models(errors@) =~= Seq::<ErrorModel>::empty());
        assert(all =~= done + it.remaining());
    }
    loop
        invariant
            all == preorder(*root),
            names_within(all, source@.len()),
            all == done + it.remaining(),
            (symbols@.map_values(|s: Symbol| s.spec_name()), error_models(errors@))
                == define_symbols_spec(done, source@),
        ensures
            done == all,
            (symbols@.map_values(|s: Symbol| s.spec_name()), error_models(errors@))
                == define_symbols_spec(done, source@),
        decreases it.remaining().len(),
    {
        let ghost rem = it.remaining();
        let p = match it.next() {
            None => {
                proof {
                    assert(all =~= done);
                }
                break;
            },
            Some(p) => p,
        };
        proof {
            assert(all[done.len() as int] == *p);
        }
        let ghost before_symbols = symbols@;
        let ghost before_errors = errors@;
        if let Production::Rule { name, production: _ } = p {
            let lx = lexeme_of(source, *name);
            if find_symbol(symbols, &lx) {
                errors.push(
                    ParseError::new(*name, ParseErrorKind::DuplicateSymbol { symbol: lx }),
                );
            } else {
                symbols.push(Symbol::new(lx.as_str()));
            }
        }
        proof {
            let next = done.push(*p);
            assert(next.drop_last() =~= done);
            assert(symbols@.map_values(|s: Symbol| s.spec_name()) =~= define_symbols_spec(
                next,
                source@,
            ).0);
            assert(error_models(errors@) =~= define_symbols_spec(next, source@).1);
            assert(all =~= next + it.remaining());
            done = next;
        }
    }
    errors
}

/// Errors for the identifiers of the tree rooted at `root` that name no symbol.
fn check_undefined_symbols(symbols: &Vec<Symbol>, root: &Production, source: &str) -> (errors: Vec<
    ParseError,
>)
    requires
        names_within(preorder(*root), source@.len()),
    ensures
        error_models(errors@) == undefined_symbols_spec(
            preorder(*root),
            source@,
            symbols@.map_values(|s: Symbol| s.spec_name()),
        ),
{
    let ghost names = symbols@.map_values(|s: Symbol| s.spec_name());
    let mut errors: Vec<ParseError> = Vec::new();
    let mut it = root.iter();
    let ghost all = preorder(*root);
    let ghost mut done: Seq<Production> = Seq::empty();
    proof {
        assert(error_models(errors@) =~= Seq::<ErrorModel>::empty());
        assert(all =~= done + it.remaining());
    }
    loop
        invariant
            all == preorder(*root),
            names == symbols@.map_values(|s: Symbol| s.spec_name()),
            names_within(all, source@.len()),
            all == done + it.remaining(),
            error_models(errors@) == undefined_symbols_spec(done, source@, names),
        ensures
            done == all,
            error_models(errors@) == undefined_symbols_spec(done, source@, names),
        decreases it.remaining().len(),
    {
        let p = match it.next() {
            None => {
                proof {
                    assert(all =~= done);
                }
                break;
            },
            Some(p) => p,
        };
        proof {
            assert(all[done.len() as int] == *p);
        }
        if let Production::Identifier { rule_name, member_name: _ } = p {
            let lx = lexeme_of(source, *rule_name);
            if !find_symbol(symbols, &lx) {
                errors.push(
                    ParseError::new(*rule_name, ParseErrorKind::UndefinedSymbol { symbol: lx }),
                );
            }
        }
        proof {
            let next = done.push(*p);
            assert(next.drop_last() =~= done);
            assert(error_models(errors@) =~= undefined_symbols_spec(next, source@, names));
            assert(all =~= next + it.remaining());
            done = next;
        }
    }
    errors
}

/// The rule-name tokens of the identifiers in the tree rooted at `option`, in pre-order.
fn collect_identifier_tokens(option: &Production) -> (ids: Vec<Token>)
    ensures
        ids@ == identifier_tokens(preorder(*option)),
{
    let mut ids: Vec<Token> = Vec::new();
    let mut it = option.iter();
    let ghost all = preorder(*option);
    let ghost mut done: Seq<Production> = Seq::empty();
    proof {
        assert(all =~= done + it.remaining());
    }
    loop
        invariant
            all == preorder(*option),
            all == done + it.remaining(),
            ids@ == identifier_tokens(done),
        ensures
            done == all,
            ids@ == identifier_tokens(done),
        decreases it.remaining().len(),
    {
        let p = match it.next() {
            None => {
                proof {
                    assert(all =~= done);
                }
                break;
            },
            Some(p) => p,
        };
        if let Production::Identifier { rule_name, member_name: _ } = p {
            ids.push(*rule_name);
        }
        proof {
            let next = done.push(*p);
            assert(next.drop_last() =~= done);
            assert(ids@ =~= identifier_tokens(next));
            assert(all =~= next + it.remaining());
            done = next;
        }
    }
    ids
}

/// Whether some identifier of `ids` names a different rule than the first.
fn mixes_rules_exec(ids: &Vec<Token>, source: &str) -> (b: bool)
    requires
        forall|j: int| 0 <= j < ids@.len() ==> token_within(#[trigger] ids@[j], source@.len()),
    ensures
        b == mixes_rules(ids@, source@),
{
    if ids.len() == 0 {
        return false;
    }
    let first = lexeme_of(source, ids[0]);
    let mut j: usize = 1;
    assert(lexeme(source@, ids@[0]) == lexeme(source@, ids@[0]));
    while j < ids.len()
        invariant
            1 <= j <= ids@.len(),
            first@ == lexeme(source@, ids@[0]),
            forall|k: int| 0 <= k < ids@.len() ==> token_within(#[trigger] ids@[k], source@.len()),
            forall|k: int| 0 <= k < j ==> lexeme(source@, #[trigger] ids@[k]) == lexeme(source@, ids@[0]),
        decreases ids@.len() - j,
    {
        let lx = lexeme_of(source, ids[j]);
        if !string_equal(lx.as_str(), first.as_str()) {
            return true;
        }
        j = j + 1;
    }
    false
}

/// Errors for the options of every `|` in the tree rooted at `root` that mix rules.
fn check_ambiguous_pipes(root: &Production, source: &str) -> (errors: Vec<ParseError>)
    requires
        checked_tokens_within(*root, source@.len()),
    ensures
        error_models(errors@) == ambiguous_pipes_spec(preorder(*root), source@),
{
    let mut errors: Vec<ParseError> = Vec::new();
    let mut it = root.iter();
    let ghost all = preorder(*root);
    let ghost mut done: Seq<Production> = Seq::empty();
    proof {
        assert(error_models(errors@) =~= Seq::<ErrorModel>::empty());
        assert(all =~= done + it.remaining());
    }
    loop
        invariant
            all == preorder(*root),
            checked_tokens_within(*root, source@.len()),
            all == done + it.remaining(),
            error_models(errors@) == ambiguous_pipes_spec(done, source@),
        ensures
            done == all,
            error_models(errors@) == ambiguous_pipes_spec(done, source@),
        decreases it.remaining().len(),
    {
        let p = match it.next() {
            None => {
                proof {
                    assert(all =~= done);
                }
                break;
            },
            Some(p) => p,
        };
        let ghost k = done.len() as int;
        proof {
            assert(all[k] == *p);
        }
        let ghost before = error_models(errors@);
        if let Production::Pipe(options) = p {
            let mut i: usize = 0;
            while i < options.len()
                invariant
                    i <= options@.len(),
                    forall|j: int|
                        0 <= j < options@.len() ==> names_within(
                            preorder(#[trigger] options@[j]),
                            source@.len(),
                        ),
                    error_models(errors@) == before + ambiguous_options_spec(
                        options@.take(i as int),
                        source@,
                    ),
                decreases options@.len() - i,
            {
                let option = &options[i];
                let ids = collect_identifier_tokens(option);
                proof {
                    let nodes = preorder(options@[i as int]);
                    assert forall|j: int| 0 <= j < ids@.len() implies token_within(
                        #[trigger] ids@[j],
                        source@.len(),
                    ) by {
                        lemma_identifier_tokens_within(nodes, source@.len(), j);
                    }
                }
                let mixes = mixes_rules_exec(&ids, source);
                let ghost mid = error_models(errors@);
                if mixes {
                    errors.push(ParseError::new(ids[0], ParseErrorKind::AmbiguousPipe));
                }
                proof {
                    let taken = options@.take(i + 1);
                    assert(taken.drop_last() =~= options@.take(i as int));
                    assert(taken.last() == options@[i as int]);
                    let prev = ambiguous_options_spec(options@.take(i as int), source@);
                    assert(ids@ == identifier_tokens(preorder(taken.last())));
                    assert(mixes == mixes_rules(identifier_tokens(preorder(taken.last())), source@));
                    if mixes {
                        assert(ambiguous_options_spec(taken, source@) == prev.push(
                            (ids@[0], ErrorKindModel::AmbiguousPipe),
                        ));
                        assert(error_models(errors@) =~= mid.push((ids@[0], ErrorKindModel::AmbiguousPipe)));
                    } else {
                        assert(ambiguous_options_spec(taken, source@) == prev);
                        assert(error_models(errors@) =~= mid);
                    }
                    assert(error_models(errors@) =~= before + ambiguous_options_spec(taken, source@));
                }
                i = i + 1;
            }
            proof {
                assert(options@.take(options@.len() as int) =~= options@);
            }
        }
        proof {
            let next = done.push(*p);
            assert(next.drop_last() =~= done);
            assert(error_models(errors@) =~= ambiguous_pipes_spec(next, source@));
            assert(all =~= next + it.remaining());
            done = next;
        }
    }
    errors
}

proof fn lemma_identifier_tokens_within(nodes: Seq<Production>, len: nat, j: int)
    requires
        names_within(nodes, len),
        0 <= j < identifier_tokens(nodes).len(),
    ensures
        token_within(identifier_tokens(nodes)[j], len),
    decreases nodes.len(),
{
    let rest = nodes.drop_last();
    assert forall|i: int| 0 <= i < rest.len() implies match #[trigger] rest[i] {
        Production::Rule { name, production: _ } => token_within(name, len),
        Production::Identifier { rule_name, member_name: _ } => token_within(rule_name, len),
        _ => true,
    } by {
        assert(rest[i] == nodes[i]);
    }
    if j < identifier_tokens(rest).len() {
        lemma_identifier_tokens_within(rest, len, j);
    } else {
        assert(nodes.last() == nodes[nodes.len() - 1]);
    }
}

} // verus!
