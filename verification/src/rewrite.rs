//! Building the rewritten function: the original definition is kept intact
//! in every outward respect — attributes, name, parameters, return type —
//! and only the body is replaced by the guard statements, in list order,
//! followed by the original block as a single nested unit.

use vstd::prelude::*;
use vstd::string::StrSliceExecFns;
use vstd::string::StringExecFns;
use crate::args::lex_from;
use crate::args::parsed_vars;
use crate::args::parse_env_vars;
use crate::args::payload_vars;
use crate::args::LexState;
use crate::strutil::push_char;

verus! {

/// A function definition as the attribute sees it.  Every piece around the
/// body is carried verbatim and never inspected; only `body` is rewritten.
pub struct FnDef {
    /// Attached attributes and other metadata, verbatim.
    pub attrs: String,
    /// The function's name.
    pub name: String,
    /// The parameter list, verbatim.
    pub params: String,
    /// The return type, verbatim (empty when none is written).
    pub ret: String,
    /// The body block, braces included, verbatim.
    pub body: String,
}

/// How `c` appears inside an emitted string literal: quotes and
/// backslashes are escaped, and so are the control characters that Rust's
/// lexer would reject or rewrite if they stood bare in a literal (a
/// carriage return above all); every other character stands for itself.
pub open spec fn escape_char(c: char) -> Seq<char> {
    if c == '"' {
        seq!['\\', '"']
    } else if c == '\\' {
        seq!['\\', '\\']
    } else if c == '\r' {
        seq!['\\', 'r']
    } else if c == '\n' {
        seq!['\\', 'n']
    } else if c == '\u{0}' {
        seq!['\\', '0']
    } else {
        seq![c]
    }
}

/// The body of the emitted string literal for the value `s`.
pub open spec fn escaped(s: Seq<char>) -> Seq<char>
    decreases s.len(),
{
    if s.len() == 0 {
        Seq::empty()
    } else {
        escaped(s.drop_last()) + escape_char(s.last())
    }
}

/// The emitted string literal for the value `s`, quotes included.
pub open spec fn lit_source(s: Seq<char>) -> Seq<char> {
    seq!['"'] + escaped(s) + seq!['"']
}

/// Source text of the guard emitted for one variable name: look the
/// variable up in the process environment; when the lookup fails, print
/// the skip diagnostic naming that variable and return early, so that
/// neither the guards below nor the original body are reached.
pub open spec fn guard_source_spec(name: Seq<char>) -> Seq<char> {
    "if std::env::var("@ + lit_source(name)
        + ").is_err() { println!(\"Skipping test: Required environment variable '{}' not found\", "@
        + lit_source(name) + "); return; } "@
}

/// The guard statements for `vars`, in list order.
pub open spec fn guards_source(vars: Seq<Seq<char>>) -> Seq<char>
    decreases vars.len(),
{
    if vars.len() == 0 {
        Seq::empty()
    } else {
        guards_source(vars.drop_last()) + guard_source_spec(vars.last())
    }
}

/// The generated body: the guards in order, then the original block as a
/// single nested unit, the whole wrapped in one block.
pub open spec fn guarded_body(vars: Seq<Seq<char>>, body: Seq<char>) -> Seq<char> {
    "{ "@ + guards_source(vars) + body + " }"@
}

/// Appends `name`, escaped for use inside a string literal, to `out`.
fn append_escaped(out: &mut String, name: &str)
    ensures
        final(out)@ == old(out)@ + escaped(name@),
{
    let n: usize = name.unicode_len();
    let mut i: usize = 0;
    while i < n
        invariant
            n == name@.len(),
            i <= n,
            out@ == old(out)@ + escaped(name@.subrange(0, i as int)),
        decreases n - i,
    {
        let c = name.get_char(i);
        let ghost prefix = name@.subrange(0, i as int);
        let ghost prefix1 = name@.subrange(0, i as int + 1);
        proof {
            assert(prefix1.drop_last() =~= prefix);
            assert(prefix1.last() == c);
            assert(escaped(prefix1) == escaped(prefix) + escape_char(c));
        }
        if c == '"' {
            push_char(out, '\\');
            push_char(out, '"');
        } else if c == '\\' {
            push_char(out, '\\');
            push_char(out, '\\');
        } else if c == '\r' {
            push_char(out, '\\');
            push_char(out, 'r');
        } else if c == '\n' {
            push_char(out, '\\');
            push_char(out, 'n');
        } else if c == '\u{0}' {
            push_char(out, '\\');
            push_char(out, '0');
        } else {
            push_char(out, c);
        }
        proof {
            assert(out@ =~= old(out)@ + escaped(prefix1));
        }
        i += 1;
    }
    proof {
        assert(name@.subrange(0, n as int) =~= name@);
    }
}

/// The emitted string literal for `name`, quotes included.
pub fn emit_lit(name: &str) -> (r: String)
    ensures
        r@ == lit_source(name@),
{
    let mut out = String::new();
    push_char(&mut out, '"');
    append_escaped(&mut out, name);
    push_char(&mut out, '"');
    proof {
        assert(out@ =~= lit_source(name@));
    }
    out
}

/// Source text of the guard for one variable name.
pub fn emit_guard(name: &str) -> (r: String)
    ensures
        r@ == guard_source_spec(name@),
{
    let lit = emit_lit(name);
    let mut out = String::from_str("if std::env::var(");
    out.append(lit.as_str());
    out.append(
        ").is_err() { println!(\"Skipping test: Required environment variable '{}' not found\", ",
    );
    out.append(lit.as_str());
    out.append("); return; } ");
    out
}

/// Source text of the guards for `vars`, in list order.
pub fn emit_guards(vars: &Vec<String>) -> (r: String)
    ensures
        r@ == guards_source(vars.deep_view()),
{
    let ghost dv = vars.deep_view();
    let mut out = String::new();
    let mut i: usize = 0;
    while i < vars.len()
        invariant
            dv == vars.deep_view(),
            dv.len() == vars@.len(),
            i <= vars@.len(),
            out@ == guards_source(dv.subrange(0, i as int)),
        decreases vars@.len() - i,
    {
        let ghost prefix = dv.subrange(0, i as int);
        let ghost prefix1 = dv.subrange(0, i as int + 1);
        proof {
            assert(prefix1.drop_last() =~= prefix);
            assert(prefix1.last() == dv[i as int]);
            assert(dv[i as int] == vars@[i as int]@);
        }
        let g = emit_guard(vars[i].as_str());
        out.append(g.as_str());
        i += 1;
    }
    proof {
        assert(dv.subrange(0, vars@.len() as int) =~= dv);
    }
    out
}

/// Rewrites one function for the required-variable list `vars`: the new
/// definition keeps the attributes, name, parameters and return type of the
/// old one byte for byte, and its body is the guards in list order followed
/// by the original block.
pub fn rewrite_fn(vars: &Vec<String>, f: &FnDef) -> (r: FnDef)
    ensures
        r.attrs@ == f.attrs@,
        r.name@ == f.name@,
        r.params@ == f.params@,
        r.ret@ == f.ret@,
        r.body@ == guarded_body(vars.deep_view(), f.body@),
{
    let mut body = String::from_str("{ ");
    let guards = emit_guards(vars);
    body.append(guards.as_str());
    body.append(f.body.as_str());
    body.append(" }");
    FnDef {
        attrs: f.attrs.clone(),
        name: f.name.clone(),
        params: f.params.clone(),
        ret: f.ret.clone(),
        body,
    }
}

/// The whole transformation: parse the attribute payload (falling open to
/// the empty list when it is malformed) and rewrite the function for the
/// resulting required-variable list.
pub fn apply_require_env(payload: &str, f: &FnDef) -> (r: FnDef)
    ensures
        r.attrs@ == f.attrs@,
        r.name@ == f.name@,
        r.params@ == f.params@,
        r.ret@ == f.ret@,
        r.body@ == guarded_body(parsed_vars(payload@), f.body@),
{
    let vars = parse_env_vars(payload);
    rewrite_fn(&vars, f)
}

/// With zero required variables no guard text is emitted: the generated
/// body is the original block, wrapped unchanged as a single nested unit.
pub proof fn lemma_no_vars_body(body: Seq<char>)
    ensures
        guarded_body(Seq::<Seq<char>>::empty(), body) == "{ "@ + body + " }"@,
{
    assert("{ "@ + guards_source(Seq::<Seq<char>>::empty()) + body + " }"@
        =~= "{ "@ + body + " }"@);
}

/// A malformed payload falls open to the empty variable list: the function
/// is rewritten with zero guards, so its generated body is the original
/// block unchanged, and the build is not rejected.
pub proof fn lemma_malformed_fail_open(s: Seq<char>, body: Seq<char>)
    requires
        payload_vars(s) is None,
    ensures
        parsed_vars(s) == Seq::<Seq<char>>::empty(),
        guarded_body(parsed_vars(s), body) == "{ "@ + body + " }"@,
{
    lemma_no_vars_body(body);
}

/// A variable list rendered back to attribute-payload text: the emitted
/// literal of each name, each followed by a comma.
pub open spec fn payload_source(vars: Seq<Seq<char>>) -> Seq<char>
    decreases vars.len(),
{
    if vars.len() == 0 {
        Seq::empty()
    } else {
        lit_source(vars.first()) + seq![','] + payload_source(vars.drop_first())
    }
}

/// `escaped` unfolded at the front rather than at the back.
proof fn lemma_escaped_head(s: Seq<char>)
    requires
        s.len() > 0,
    ensures
        escaped(s) == escape_char(s.first()) + escaped(s.drop_first()),
    decreases s.len(),
{
    if s.len() == 1 {
        assert(s.drop_last() =~= Seq::<char>::empty());
        assert(s.drop_first() =~= Seq::<char>::empty());
        assert(escaped(s) =~= escape_char(s.first()) + escaped(s.drop_first()));
    } else {
        let dl = s.drop_last();
        lemma_escaped_head(dl);
        assert(dl.first() == s.first());
        assert(dl.drop_first() =~= s.drop_first().drop_last());
        assert(s.drop_first().last() == s.last());
        assert(escape_char(s.first()) + escaped(s.drop_first().drop_last())
            + escape_char(s.drop_first().last())
            =~= escape_char(s.first()) + escaped(s.drop_first()));
    }
}

/// Lexing the escaped form of `v` inside a literal appends exactly `v` to
/// the value being read and consumes nothing else.
proof fn lemma_lex_escaped(v: Seq<char>, t: Seq<char>, cur: Seq<char>, acc: Seq<Seq<char>>)
    ensures
        lex_from(escaped(v) + t, LexState::InLit, cur, acc)
            == lex_from(t, LexState::InLit, cur + v, acc),
    decreases v.len(),
{
    if v.len() == 0 {
        assert(escaped(v) + t =~= t);
        assert(cur + v =~= cur);
    } else {
        let c = v.first();
        let v1 = v.drop_first();
        lemma_escaped_head(v);
        let s = escaped(v) + t;
        if c == '"' || c == '\\' || c == '\r' || c == '\n' || c == '\u{0}' {
            let e = if c == '"' {
                '"'
            } else if c == '\\' {
                '\\'
            } else if c == '\r' {
                'r'
            } else if c == '\n' {
                'n'
            } else {
                '0'
            };
            assert(escape_char(c) == seq!['\\', e]);
            assert(s =~= seq!['\\', e] + (escaped(v1) + t));
            assert(s[0] == '\\');
            assert(s.drop_first() =~= seq![e] + (escaped(v1) + t));
            let s1 = s.drop_first();
            assert(lex_from(s, LexState::InLit, cur, acc)
                == lex_from(s1, LexState::InEscape, cur, acc));
            assert(s1[0] == e);
            assert(s1.drop_first() =~= escaped(v1) + t);
            assert(crate::args::unescape(e) == Some(c));
            assert(lex_from(s1, LexState::InEscape, cur, acc)
                == lex_from(escaped(v1) + t, LexState::InLit, cur.push(c), acc));
            lemma_lex_escaped(v1, t, cur.push(c), acc);
            assert(cur.push(c) + v1 =~= cur + v);
        } else {
            assert(escape_char(c) == seq![c]);
            assert(s =~= seq![c] + (escaped(v1) + t));
            assert(s[0] == c);
            assert(s.drop_first() =~= escaped(v1) + t);
            assert(lex_from(s, LexState::InLit, cur, acc)
                == lex_from(escaped(v1) + t, LexState::InLit, cur.push(c), acc));
            lemma_lex_escaped(v1, t, cur.push(c), acc);
            assert(cur.push(c) + v1 =~= cur + v);
        }
    }
}

/// Lexing an emitted literal from before-an-item position reads exactly
/// its value and moves to the after-an-item position.
proof fn lemma_lex_lit(v: Seq<char>, t: Seq<char>, cur: Seq<char>, acc: Seq<Seq<char>>)
    ensures
        lex_from(lit_source(v) + t, LexState::ExpectItem, cur, acc)
            == lex_from(t, LexState::ExpectSep, Seq::<char>::empty(), acc.push(v)),
{
    let s = lit_source(v) + t;
    assert(s =~= seq!['"'] + (escaped(v) + (seq!['"'] + t)));
    assert(s[0] == '"');
    assert(!crate::args::is_ws('"'));
    assert(s.drop_first() =~= escaped(v) + (seq!['"'] + t));
    assert(lex_from(s, LexState::ExpectItem, cur, acc)
        == lex_from(escaped(v) + (seq!['"'] + t), LexState::InLit, Seq::<char>::empty(), acc));
    lemma_lex_escaped(v, seq!['"'] + t, Seq::<char>::empty(), acc);
    let q = seq!['"'] + t;
    assert(q[0] == '"');
    assert(q.drop_first() =~= t);
    assert(Seq::<char>::empty() + v =~= v);
    assert(lex_from(q, LexState::InLit, v, acc)
        == lex_from(t, LexState::ExpectSep, Seq::<char>::empty(), acc.push(v)));
}

proof fn lemma_lex_render(vars: Seq<Seq<char>>, cur: Seq<char>, acc: Seq<Seq<char>>)
    ensures
        lex_from(payload_source(vars), LexState::ExpectItem, cur, acc) == Some(acc + vars),
    decreases vars.len(),
{
    if vars.len() == 0 {
        assert(acc + vars =~= acc);
    } else {
        let v0 = vars.first();
        let rest = vars.drop_first();
        let s = payload_source(vars);
        assert(s =~= lit_source(v0) + (seq![','] + payload_source(rest)));
        lemma_lex_lit(v0, seq![','] + payload_source(rest), cur, acc);
        let q = seq![','] + payload_source(rest);
        assert(q[0] == ',');
        assert(!crate::args::is_ws(','));
        assert(q.drop_first() =~= payload_source(rest));
        assert(lex_from(q, LexState::ExpectSep, Seq::<char>::empty(), acc.push(v0))
            == lex_from(payload_source(rest), LexState::ExpectItem, Seq::<char>::empty(),
                acc.push(v0)));
        lemma_lex_render(rest, Seq::<char>::empty(), acc.push(v0));
        assert(acc.push(v0) + rest =~= acc + vars);
    }
}

/// Parsing undoes rendering: the payload text rendered for any variable
/// list — each name emitted exactly as the guards emit it — parses back to
/// that same list, so the escaping applied on emission loses nothing that
/// the grammar reads.
pub proof fn lemma_render_parse_round_trip(vars: Seq<Seq<char>>)
    ensures
        payload_vars(payload_source(vars)) == Some(vars),
{
    lemma_lex_render(vars, Seq::<char>::empty(), Seq::<Seq<char>>::empty());
    assert(Seq::<Seq<char>>::empty() + vars =~= vars);
}

/// In particular a single emitted literal, read as a whole payload, parses
/// back to exactly its value.
pub proof fn lemma_lit_round_trip(v: Seq<char>)
    ensures
        payload_vars(lit_source(v) + seq![',']) == Some(seq![v]),
{
    lemma_render_parse_round_trip(seq![v]);
    assert(seq![v].drop_first() =~= Seq::<Seq<char>>::empty());
    assert(seq![v].first() == v);
    assert(payload_source(Seq::<Seq<char>>::empty()) == Seq::<char>::empty());
    assert(payload_source(seq![v]) =~= lit_source(v) + seq![',']);
}

} // verus!
