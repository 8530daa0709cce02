//! The expression rewriter: one rule per expression kind, each reserving the
//! columns of the characters it prints around its sub-expressions before it
//! renders them.
use vstd::prelude::*;
use crate::config::{Config, RewriteError};
use crate::lists::{ListFormatting, ListTactic, SeparatorTactic, list_layout, views, write_list};
use crate::escape::{escape_bounds, escape_default, escape_text};
use crate::string_lit::{wrapped, wrap_escaped};
use crate::text::{push_all, push_range};

verus! {

broadcast use vstd::std_specs::vec::group_vec_axioms, vstd::seq::group_seq_axioms;

/// A range of character positions in the source text, end excluded.
#[derive(Clone, Copy, Debug, PartialEq, Eq, Structural)]
pub struct Span {
    pub lo: usize,
    pub hi: usize,
}

/// An expression node, as far as the layout rules tell kinds apart.
pub enum Expr {
    /// A string literal: its decoded text and where it stands in the source.
    StrLit { text: Vec<char>, span: Span },
    Call { callee: Box<Expr>, args: Vec<Expr> },
    Paren { sub: Box<Expr> },
    /// A struct literal: its type path as written, its fields, and the base
    /// of a struct update (`..base`).
    StructLit { path: Vec<char>, fields: Vec<Field>, base: Option<Box<Expr>> },
    Tuple { items: Vec<Expr> },
    /// Any other kind, which keeps its source text.
    Other { span: Span },
}

/// A `name: value` field of a struct literal.
pub struct Field {
    pub name: Vec<char>,
    pub expr: Expr,
}

/// Lays out expressions of one source text under one configuration.
pub struct FmtVisitor {
    pub source: Vec<char>,
    pub config: Config,
}

/// Every struct literal in `e` has a field or a base.
pub open spec fn well_formed(e: Expr) -> bool
    decreases e,
{
    match e {
        Expr::Call { callee, args } => well_formed(*callee) && forall|i: int|
            0 <= i < args.len() ==> well_formed(#[trigger] args@[i]),
        Expr::Paren { sub } => well_formed(*sub),
        Expr::StructLit { path, fields, base } => (fields.len() > 0 || base is Some) && (forall|i: int|
            0 <= i < fields.len() ==> well_formed(#[trigger] fields@[i].expr)) && match base {
            Some(b) => well_formed(*b),
            None => true,
        },
        Expr::Tuple { items } => forall|i: int|
            0 <= i < items.len() ==> well_formed(#[trigger] items@[i]),
        _ => true,
    }
}

pub open spec fn res_view(r: Result<Vec<char>, RewriteError>) -> Result<Seq<char>, RewriteError> {
    match r {
        Ok(v) => Ok(v@),
        Err(e) => Err(e),
    }
}

pub open spec fn in_range(x: int) -> bool {
    0 <= x <= usize::MAX
}

pub open spec fn span_ok(src: Seq<char>, sp: Span) -> bool {
    sp.lo <= sp.hi <= src.len()
}

/// The source text of a span.
pub open spec fn snippet_of(src: Seq<char>, sp: Span) -> Seq<char> {
    src.subrange(sp.lo as int, sp.hi as int)
}

/// No line break lies between `lo` and `hi`: both stand on one line.
pub open spec fn on_one_line(src: Seq<char>, lo: int, hi: int) -> bool {
    forall|i: int| lo <= i < hi ==> src[i] != '\n'
}

/// The column of position `pos`: how many characters precede it on its line.
pub open spec fn column_of(src: Seq<char>, pos: int) -> int
    decreases pos,
{
    if pos <= 0 || pos > src.len() {
        0
    } else if src[pos - 1] == '\n' {
        0
    } else {
        column_of(src, pos - 1) + 1
    }
}

/// A string literal: its source text where it already stands on one line
/// that ends within the maximum width, else its escaped text wrapped.
pub open spec fn string_lit_spec(
    src: Seq<char>,
    cfg: Config,
    text: Seq<char>,
    sp: Span,
    width: int,
    offset: int,
) -> Result<Seq<char>, RewriteError> {
    if !span_ok(src, sp) {
        Err(RewriteError::SpanOutOfRange)
    } else if on_one_line(src, sp.lo as int, sp.hi as int) && column_of(src, sp.hi as int)
        <= cfg.max_width {
        Ok(snippet_of(src, sp))
    } else {
        match wrapped(escape_text(text), escape_bounds(text), width, cfg.max_width as int, offset, cfg.min_string as int) {
            Some(r) => Ok(r),
            None => Err(RewriteError::BudgetOutOfRange),
        }
    }
}

pub open spec fn list_fmt(tactic: ListTactic, trailing: SeparatorTactic, indent: int, width: int) -> ListFormatting {
    ListFormatting { tactic, trailing_separator: trailing, indent: indent as usize, h_width: width as usize }
}

/// `callee(args)`, the arguments laid out from column `indent` within `width`.
pub open spec fn call_layout(callee: Seq<char>, args: Seq<Seq<char>>, width: int, indent: int) -> Seq<char> {
    callee + seq!['('] + list_layout(
        args,
        list_fmt(ListTactic::HorizontalVertical, SeparatorTactic::Never, indent, width),
    ) + seq![')']
}

/// `Path { fields }`.
pub open spec fn struct_layout(
    path: Seq<char>,
    fields: Seq<Seq<char>>,
    trailing: SeparatorTactic,
    width: int,
    indent: int,
) -> Seq<char> {
    path + seq![' ', '{', ' '] + list_layout(
        fields,
        list_fmt(ListTactic::HorizontalVertical, trailing, indent, width),
    ) + seq![' ', '}']
}

/// Some item holds a line break.
pub open spec fn any_multiline(items: Seq<Seq<char>>) -> bool {
    exists|i: int, j: int| 0 <= i < items.len() && 0 <= j < items[i].len() && items[i][j] == '\n'
}

/// `(items)`: one item per line as soon as one of them spans several lines.
pub open spec fn tuple_layout(items: Seq<Seq<char>>, width: int, indent: int) -> Seq<char> {
    let tactic = if any_multiline(items) {
        ListTactic::Vertical
    } else {
        ListTactic::HorizontalVertical
    };
    seq!['('] + list_layout(items, list_fmt(tactic, SeparatorTactic::Never, indent, width)) + seq![')']
}

/// What the rewriter makes of `e` with `width` columns left on the line and
/// continuation lines starting at column `offset`.
pub open spec fn rewrite_spec(src: Seq<char>, cfg: Config, e: Expr, width: int, offset: int) -> Result<
    Seq<char>,
    RewriteError,
>
    decreases e, 2int,
{
    match e {
        Expr::StrLit { text, span } => string_lit_spec(src, cfg, text@, span, width, offset),
        Expr::Call { callee, args } => match rewrite_spec(src, cfg, *callee, width, offset) {
            Err(x) => Err(x),
            Ok(cs) => {
                let rw = width - cs.len() - 2;
                let ao = offset + cs.len() + 1;
                if !in_range(rw) || !in_range(ao) {
                    Err(RewriteError::BudgetOutOfRange)
                } else {
                    match rewrite_all(src, cfg, args@, rw, ao) {
                        Err(x) => Err(x),
                        Ok(strs) => Ok(call_layout(cs, strs, rw, ao)),
                    }
                }
            },
        },
        Expr::Paren { sub } => if width < 2 || !in_range(offset + 1) {
            Err(RewriteError::BudgetOutOfRange)
        } else {
            match rewrite_spec(src, cfg, *sub, width - 2, offset + 1) {
                Err(x) => Err(x),
                Ok(s) => Ok(seq!['('] + s + seq![')']),
            }
        },
        Expr::StructLit { path, fields, base } => {
            let indent = offset + path.len() + 3;
            let budget = width - (path.len() + 5);
            if !in_range(indent) || !in_range(budget) {
                Err(RewriteError::BudgetOutOfRange)
            } else {
                match rewrite_fields(src, cfg, fields@, budget, indent) {
                    Err(x) => Err(x),
                    Ok(fs) => match base {
                        None => Ok(
                            struct_layout(path@, fs, cfg.struct_lit_trailing_comma, budget, indent),
                        ),
                        Some(b) => if budget < 2 || !in_range(indent + 2) {
                            Err(RewriteError::BudgetOutOfRange)
                        } else {
                            match rewrite_spec(src, cfg, *b, budget - 2, indent + 2) {
                                Err(x) => Err(x),
                                Ok(bs) => Ok(
                                    struct_layout(
                                        path@,
                                        fs.push(seq!['.', '.'] + bs),
                                        SeparatorTactic::Never,
                                        budget,
                                        indent,
                                    ),
                                ),
                            }
                        },
                    },
                }
            }
        },
        Expr::Tuple { items } => {
            let indent = offset + 1;
            if !in_range(indent) {
                Err(RewriteError::BudgetOutOfRange)
            } else if items.len() == 1 {
                if width < 3 {
                    Err(RewriteError::BudgetOutOfRange)
                } else {
                    match rewrite_spec(src, cfg, items@[0], width - 3, indent) {
                        Err(x) => Err(x),
                        Ok(s) => Ok(seq!['('] + s + seq![',', ')']),
                    }
                }
            } else if width < 2 {
                Err(RewriteError::BudgetOutOfRange)
            } else if items.len() == 0 {
                Ok(seq!['(', ')'])
            } else if !in_range(cfg.max_width - indent - 2) {
                Err(RewriteError::BudgetOutOfRange)
            } else {
                match rewrite_all(src, cfg, items@.drop_last(), cfg.max_width - indent - 2, indent) {
                    Err(x) => Err(x),
                    Ok(front) => match rewrite_spec(src, cfg, items@.last(), width - 2, indent) {
                        Err(x) => Err(x),
                        Ok(l) => Ok(tuple_layout(front.push(l), width - 2, indent)),
                    },
                }
            }
        },
        Expr::Other { span } => if span_ok(src, span) {
            Ok(snippet_of(src, span))
        } else {
            Err(RewriteError::SpanOutOfRange)
        },
    }
}

/// Each expression rewritten with the same budget, or the first failure.
pub open spec fn rewrite_all(src: Seq<char>, cfg: Config, es: Seq<Expr>, width: int, offset: int) -> Result<
    Seq<Seq<char>>,
    RewriteError,
>
    decreases es, 1int,
{
    if es.len() == 0 {
        Ok(Seq::empty())
    } else {
        match rewrite_all(src, cfg, es.drop_last(), width, offset) {
            Err(x) => Err(x),
            Ok(front) => match rewrite_spec(src, cfg, es.last(), width, offset) {
                Err(x) => Err(x),
                Ok(l) => Ok(front.push(l)),
            },
        }
    }
}

/// `name: value`, the value charged for the name and `": "`.
pub open spec fn field_spec(src: Seq<char>, cfg: Config, f: Field, width: int, offset: int) -> Result<
    Seq<char>,
    RewriteError,
>
    decreases f, 1int,
{
    let overhead = f.name.len() + 2;
    if width < overhead || !in_range(offset + overhead) {
        Err(RewriteError::BudgetOutOfRange)
    } else {
        match rewrite_spec(src, cfg, f.expr, width - overhead, offset + overhead) {
            Err(x) => Err(x),
            Ok(v) => Ok(f.name@ + seq![':', ' '] + v),
        }
    }
}

/// Each field rewritten with the same budget, or the first failure.
pub open spec fn rewrite_fields(src: Seq<char>, cfg: Config, fs: Seq<Field>, width: int, offset: int) -> Result<
    Seq<Seq<char>>,
    RewriteError,
>
    decreases fs, 1int,
{
    if fs.len() == 0 {
        Ok(Seq::empty())
    } else {
        match rewrite_fields(src, cfg, fs.drop_last(), width, offset) {
            Err(x) => Err(x),
            Ok(front) => match field_spec(src, cfg, fs.last(), width, offset) {
                Err(x) => Err(x),
                Ok(l) => Ok(front.push(l)),
            },
        }
    }
}

proof fn lemma_all_err_extends(src: Seq<char>, cfg: Config, es: Seq<Expr>, i: int, n: int, w: int, o: int)
    requires
        0 <= i <= n <= es.len(),
        rewrite_all(src, cfg, es.take(i), w, o) is Err,
    ensures
        rewrite_all(src, cfg, es.take(n), w, o) == rewrite_all(src, cfg, es.take(i), w, o),
    decreases n - i,
{
    if i < n {
        assert(es.take(i + 1).drop_last() =~= es.take(i));
        lemma_all_err_extends(src, cfg, es, i + 1, n, w, o);
    }
}

proof fn lemma_fields_err_extends(src: Seq<char>, cfg: Config, fs: Seq<Field>, i: int, n: int, w: int, o: int)
    requires
        0 <= i <= n <= fs.len(),
        rewrite_fields(src, cfg, fs.take(i), w, o) is Err,
    ensures
        rewrite_fields(src, cfg, fs.take(n), w, o) == rewrite_fields(src, cfg, fs.take(i), w, o),
    decreases n - i,
{
    if i < n {
        assert(fs.take(i + 1).drop_last() =~= fs.take(i));
        lemma_fields_err_extends(src, cfg, fs, i + 1, n, w, o);
    }
}

fn has_line_break(items: &Vec<Vec<char>>) -> (r: bool)
    ensures
        r == any_multiline(views(items@)),
{
    let mut i: usize = 0;
    while i < items.len()
        invariant
            i <= items.len(),
            forall|a: int, b: int| 0 <= a < i && 0 <= b < items@[a]@.len() ==> items@[a]@[b] != '\n',
        decreases items.len() - i,
    {
        let mut j: usize = 0;
        while j < items[i].len()
            invariant
                i < items.len(),
                j <= items@[i as int]@.len(),
                forall|b: int| 0 <= b < j ==> items@[i as int]@[b] != '\n',
            decreases items[i as int]@.len() - j,
        {
            if items[i][j] == '\n' {
                assert(views(items@)[i as int][j as int] == '\n');
                return true;
            }
            j = j + 1;
        }
        i = i + 1;
    }
    false
}

impl FmtVisitor {
    /// The source text of `span`.
    pub fn snippet(&self, span: Span) -> (r: Result<Vec<char>, RewriteError>)
        ensures
            res_view(r) == if span_ok(self.source@, span) {
                Ok(snippet_of(self.source@, span))
            } else {
                Err::<Seq<char>, RewriteError>(RewriteError::SpanOutOfRange)
            },
    {
        if span.lo > span.hi || span.hi > self.source.len() {
            return Err(RewriteError::SpanOutOfRange);
        }
        let mut r: Vec<char> = Vec::new();
        push_range(&mut r, &self.source, span.lo, span.hi);
        assert(r@ =~= snippet_of(self.source@, span));
        Ok(r)
    }

    /// The column of source position `pos`.
    pub fn column(&self, pos: usize) -> (r: usize)
        requires
            pos <= self.source.len(),
        ensures
            r == column_of(self.source@, pos as int),
    {
        let mut p: usize = pos;
        let mut c: usize = 0;
        while p > 0 && self.source[p - 1] != '\n'
            invariant
                p <= pos <= self.source.len(),
                c == pos - p,
                column_of(self.source@, pos as int) == column_of(self.source@, p as int) + c,
            decreases p,
        {
            p = p - 1;
            c = c + 1;
        }
        c
    }

    /// Whether no line break lies between `lo` and `hi`.
    pub fn on_one_line(&self, lo: usize, hi: usize) -> (r: bool)
        requires
            lo <= hi <= self.source.len(),
        ensures
            r == on_one_line(self.source@, lo as int, hi as int),
    {
        let mut i: usize = lo;
        while i < hi
            invariant
                lo <= i <= hi <= self.source.len(),
                forall|k: int| lo <= k < i ==> self.source@[k] != '\n',
            decreases hi - i,
        {
            if self.source[i] == '\n' {
                return false;
            }
            i = i + 1;
        }
        true
    }

    /// A string literal whose decoded text is `text` and which stands at `span`.
    pub fn rewrite_string_lit(&self, text: &Vec<char>, span: Span, width: usize, offset: usize) -> (r:
        Result<Vec<char>, RewriteError>)
        ensures
            res_view(r) == string_lit_spec(self.source@, self.config, text@, span, width as int, offset as int),
    {
        if span.lo > span.hi || span.hi > self.source.len() {
            return Err(RewriteError::SpanOutOfRange);
        }
        if self.on_one_line(span.lo, span.hi) && self.column(span.hi) <= self.config.max_width {
            return self.snippet(span);
        }
        let (s, bounds) = escape_default(text);
        match wrap_escaped(&s, &bounds, width, self.config.max_width, offset, self.config.min_string) {
            Some(v) => Ok(v),
            None => Err(RewriteError::BudgetOutOfRange),
        }
    }

    fn rewrite_each(&self, es: &Vec<Expr>, n: usize, width: usize, offset: usize) -> (r: Result<Vec<Vec<char>>, RewriteError>)
        requires
            n <= es.len(),
            forall|i: int| 0 <= i < n ==> well_formed(#[trigger] es@[i]),
        ensures
            match r {
                Ok(v) => rewrite_all(self.source@, self.config, es@.take(n as int), width as int, offset as int) == Ok::<Seq<Seq<char>>, RewriteError>(views(v@)),
                Err(x) => rewrite_all(self.source@, self.config, es@.take(n as int), width as int, offset as int) == Err::<Seq<Seq<char>>, RewriteError>(x),
            },
        decreases es, 1int,
    {
        let ghost src = self.source@;
        let ghost cfg = self.config;
        let mut out: Vec<Vec<char>> = Vec::new();
        let mut i: usize = 0;
        assert(es@.take(0) =~= Seq::<Expr>::empty());
        assert(views(out@) =~= Seq::<Seq<char>>::empty());
        while i < n
            invariant
                i <= n <= es.len(),
                forall|k: int| 0 <= k < n ==> well_formed(#[trigger] es@[k]),
                src == self.source@,
                cfg == self.config,
                rewrite_all(src, cfg, es@.take(i as int), width as int, offset as int) == Ok::<Seq<Seq<char>>, RewriteError>(views(out@)),
            decreases n - i,
        {
            assert(es@.take(i + 1).drop_last() =~= es@.take(i as int));
            assert(es@.take(i + 1).last() == es@[i as int]);
            match self.rewrite_expr(&es[i], width, offset) {
                Err(x) => {
                    proof {
                        lemma_all_err_extends(src, cfg, es@, i + 1, n as int, width as int, offset as int);
                    }
                    return Err(x);
                },
                Ok(v) => {
                    let ghost before = views(out@);
                    out.push(v);
                    assert(views(out@) =~= before.push(v@));
                },
            }
            i = i + 1;
        }
        Ok(out)
    }

    fn rewrite_each_field(&self, fs: &Vec<Field>, width: usize, offset: usize) -> (r: Result<Vec<Vec<char>>, RewriteError>)
        requires
            forall|i: int| 0 <= i < fs.len() ==> well_formed(#[trigger] fs@[i].expr),
        ensures
            match r {
                Ok(v) => rewrite_fields(self.source@, self.config, fs@, width as int, offset as int) == Ok::<Seq<Seq<char>>, RewriteError>(views(v@)),
                Err(x) => rewrite_fields(self.source@, self.config, fs@, width as int, offset as int) == Err::<Seq<Seq<char>>, RewriteError>(x),
            },
        decreases fs, 1int,
    {
        let ghost src = self.source@;
        let ghost cfg = self.config;
        let mut out: Vec<Vec<char>> = Vec::new();
        let mut i: usize = 0;
        assert(fs@.take(0) =~= Seq::<Field>::empty());
        assert(views(out@) =~= Seq::<Seq<char>>::empty());
        while i < fs.len()
            invariant
                i <= fs.len(),
                forall|k: int| 0 <= k < fs.len() ==> well_formed(#[trigger] fs@[k].expr),
                src == self.source@,
                cfg == self.config,
                rewrite_fields(src, cfg, fs@.take(i as int), width as int, offset as int) == Ok::<Seq<Seq<char>>, RewriteError>(views(out@)),
            decreases fs.len() - i,
        {
            assert(fs@.take(i + 1).drop_last() =~= fs@.take(i as int));
            assert(fs@.take(i + 1).last() == fs@[i as int]);
            match self.rewrite_field(&fs[i], width, offset) {
                Err(x) => {
                    proof {
                        lemma_fields_err_extends(src, cfg, fs@, i + 1, fs.len() as int, width as int, offset as int);
                        assert(fs@.take(fs.len() as int) =~= fs@);
                    }
                    return Err(x);
                },
                Ok(v) => {
                    let ghost before = views(out@);
                    out.push(v);
                    assert(views(out@) =~= before.push(v@));
                },
            }
            i = i + 1;
        }
        assert(fs@.take(i as int) =~= fs@);
        Ok(out)
    }

    fn rewrite_field(&self, f: &Field, width: usize, offset: usize) -> (r: Result<Vec<char>, RewriteError>)
        requires
            well_formed(f.expr),
        ensures
            res_view(r) == field_spec(self.source@, self.config, *f, width as int, offset as int),
        decreases f, 1int,
    {
        let len = f.name.len();
        if len > usize::MAX - 2 || width < len + 2 || offset > usize::MAX - (len + 2) {
            return Err(RewriteError::BudgetOutOfRange);
        }
        let overhead = len + 2;
        match self.rewrite_expr(&f.expr, width - overhead, offset + overhead) {
            Err(x) => Err(x),
            Ok(v) => {
                let mut r: Vec<char> = Vec::new();
                push_all(&mut r, &f.name);
                r.push(':');
                r.push(' ');
                push_all(&mut r, &v);
                assert(r@ =~= f.name@ + seq![':', ' '] + v@);
                Ok(r)
            },
        }
    }

    fn rewrite_call(&self, e: &Expr, width: usize, offset: usize) -> (r: Result<Vec<char>, RewriteError>)
        requires
            e is Call,
            well_formed(*e),
        ensures
            res_view(r) == rewrite_spec(self.source@, self.config, *e, width as int, offset as int),
        decreases e, 1int,
    {
        match e {
            Expr::Call { callee, args } => {
                let cs = match self.rewrite_expr(&**callee, width, offset) {
                    Err(x) => {
                        return Err(x);
                    },
                    Ok(v) => v,
                };
                if cs.len() > width || width - cs.len() < 2 || offset > usize::MAX - (cs.len() + 1) {
                    return Err(RewriteError::BudgetOutOfRange);
                }
                let remaining = width - cs.len() - 2;
                let indent = offset + cs.len() + 1;
                let strs = match self.rewrite_each(args, args.len(), remaining, indent) {
                    Err(x) => {
                        assert(args@.take(args.len() as int) =~= args@);
                        return Err(x);
                    },
                    Ok(v) => v,
                };
                assert(args@.take(args.len() as int) =~= args@);
                let fmt = ListFormatting {
                    tactic: ListTactic::HorizontalVertical,
                    trailing_separator: SeparatorTactic::Never,
                    indent: indent,
                    h_width: remaining,
                };
                let body = write_list(&strs, &fmt);
                let mut r: Vec<char> = Vec::new();
                push_all(&mut r, &cs);
                r.push('(');
                push_all(&mut r, &body);
                r.push(')');
                assert(r@ =~= call_layout(cs@, views(strs@), remaining as int, indent as int));
                Ok(r)
            },
            _ => {
                assert(false);
                Err(RewriteError::BudgetOutOfRange)
            },
        }
    }

    fn rewrite_paren(&self, e: &Expr, width: usize, offset: usize) -> (r: Result<Vec<char>, RewriteError>)
        requires
            e is Paren,
            well_formed(*e),
        ensures
            res_view(r) == rewrite_spec(self.source@, self.config, *e, width as int, offset as int),
        decreases e, 1int,
    {
        match e {
            Expr::Paren { sub } => {
                if width < 2 || offset == usize::MAX {
                    return Err(RewriteError::BudgetOutOfRange);
                }
                match self.rewrite_expr(&**sub, width - 2, offset + 1) {
                    Err(x) => Err(x),
                    Ok(v) => {
                        let mut r: Vec<char> = Vec::new();
                        r.push('(');
                        push_all(&mut r, &v);
                        r.push(')');
                        assert(r@ =~= seq!['('] + v@ + seq![')']);
                        Ok(r)
                    },
                }
            },
            _ => {
                assert(false);
                Err(RewriteError::BudgetOutOfRange)
            },
        }
    }

    #[verifier::rlimit(60)]
    fn rewrite_struct_lit(&self, e: &Expr, width: usize, offset: usize) -> (r: Result<Vec<char>, RewriteError>)
        requires
            e is StructLit,
            well_formed(*e),
        ensures
            res_view(r) == rewrite_spec(self.source@, self.config, *e, width as int, offset as int),
        decreases e, 1int,
    {
        match e {
            Expr::StructLit { path, fields, base } => {
                let pl = path.len();
                if pl > usize::MAX - 5 || offset > usize::MAX - (pl + 3) || width < pl + 5 {
                    return Err(RewriteError::BudgetOutOfRange);
                }
                let indent = offset + pl + 3;
                let budget = width - (pl + 5);
                let mut strs = match self.rewrite_each_field(fields, budget, indent) {
                    Err(x) => {
                        return Err(x);
                    },
                    Ok(v) => v,
                };
                let trailing = match base {
                    None => self.config.struct_lit_trailing_comma,
                    Some(b) => {
                        if budget < 2 || indent > usize::MAX - 2 {
                            return Err(RewriteError::BudgetOutOfRange);
                        }
                        let bs = match self.rewrite_expr(&**b, budget - 2, indent + 2) {
                            Err(x) => {
                                return Err(x);
                            },
                            Ok(v) => v,
                        };
                        let mut item: Vec<char> = Vec::new();
                        item.push('.');
                        item.push('.');
                        push_all(&mut item, &bs);
                        assert(item@ =~= seq!['.', '.'] + bs@);
                        let ghost before = views(strs@);
                        strs.push(item);
                        assert(views(strs@) =~= before.push(seq!['.', '.'] + bs@));
                        SeparatorTactic::Never
                    },
                };
                let fmt = ListFormatting {
                    tactic: ListTactic::HorizontalVertical,
                    trailing_separator: trailing,
                    indent: indent,
                    h_width: budget,
                };
                let body = write_list(&strs, &fmt);
                let mut r: Vec<char> = Vec::new();
                push_all(&mut r, path);
                r.push(' ');
                r.push('{');
                r.push(' ');
                push_all(&mut r, &body);
                r.push(' ');
                r.push('}');
                assert(r@ =~= struct_layout(path@, views(strs@), trailing, budget as int, indent as int));
                Ok(r)
            },
            _ => {
                assert(false);
                Err(RewriteError::BudgetOutOfRange)
            },
        }
    }

    fn rewrite_tuple_lit(&self, e: &Expr, width: usize, offset: usize) -> (r: Result<Vec<char>, RewriteError>)
        requires
            e is Tuple,
            well_formed(*e),
        ensures
            res_view(r) == rewrite_spec(self.source@, self.config, *e, width as int, offset as int),
        decreases e, 1int,
    {
        match e {
            Expr::Tuple { items } => {
                if offset == usize::MAX {
                    return Err(RewriteError::BudgetOutOfRange);
                }
                let indent = offset + 1;
                if items.len() == 1 {
                    if width < 3 {
                        return Err(RewriteError::BudgetOutOfRange);
                    }
                    return match self.rewrite_expr(&items[0], width - 3, indent) {
                        Err(x) => Err(x),
                        Ok(v) => {
                            let mut r: Vec<char> = Vec::new();
                            r.push('(');
                            push_all(&mut r, &v);
                            r.push(',');
                            r.push(')');
                            assert(r@ =~= seq!['('] + v@ + seq![',', ')']);
                            Ok(r)
                        },
                    };
                }
                if width < 2 {
                    return Err(RewriteError::BudgetOutOfRange);
                }
                if items.len() == 0 {
                    let mut r: Vec<char> = Vec::new();
                    r.push('(');
                    r.push(')');
                    assert(r@ =~= seq!['(', ')']);
                    return Ok(r);
                }
                if self.config.max_width < 2 || self.config.max_width - 2 < indent {
                    return Err(RewriteError::BudgetOutOfRange);
                }
                let n = items.len() - 1;
                assert(items@.take(n as int) =~= items@.drop_last());
                let mut strs = match self.rewrite_each(items, n, self.config.max_width - indent - 2, indent) {
                    Err(x) => {
                        return Err(x);
                    },
                    Ok(v) => v,
                };
                let l = match self.rewrite_expr(&items[n], width - 2, indent) {
                    Err(x) => {
                        return Err(x);
                    },
                    Ok(v) => v,
                };
                let ghost before = views(strs@);
                strs.push(l);
                assert(views(strs@) =~= before.push(l@));
                let tactic = if has_line_break(&strs) {
                    ListTactic::Vertical
                } else {
                    ListTactic::HorizontalVertical
                };
                let fmt = ListFormatting {
                    tactic: tactic,
                    trailing_separator: SeparatorTactic::Never,
                    indent: indent,
                    h_width: width - 2,
                };
                let body = write_list(&strs, &fmt);
                let mut r: Vec<char> = Vec::new();
                r.push('(');
                push_all(&mut r, &body);
                r.push(')');
                assert(r@ =~= tuple_layout(views(strs@), width - 2, indent as int));
                Ok(r)
            },
            _ => {
                assert(false);
                Err(RewriteError::BudgetOutOfRange)
            },
        }
    }

    /// Lays out `expr` with `width` columns left on the current line and
    /// continuation lines starting at column `offset`.
    pub fn rewrite_expr(&self, expr: &Expr, width: usize, offset: usize) -> (r: Result<Vec<char>, RewriteError>)
        requires
            well_formed(*expr),
        ensures
            res_view(r) == rewrite_spec(self.source@, self.config, *expr, width as int, offset as int),
        decreases expr, 2int,
    {
        match expr {
            Expr::StrLit { text, span } => self.rewrite_string_lit(text, *span, width, offset),
            Expr::Call { .. } => self.rewrite_call(expr, width, offset),
            Expr::Paren { .. } => self.rewrite_paren(expr, width, offset),
            Expr::StructLit { .. } => self.rewrite_struct_lit(expr, width, offset),
            Expr::Tuple { .. } => self.rewrite_tuple_lit(expr, width, offset),
            Expr::Other { span } => self.snippet(*span),
        }
    }
}

} // verus!
