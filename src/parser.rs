use vstd::prelude::*;
use crate::grammar::{
    digits_end, keyword, letters_end, numeral, p_args, p_args_tail,
    p_block, p_branch, p_call, p_defun, p_else, p_expr, p_factor, p_if, p_let, p_math, p_math_tail,
    p_nested, p_operand, p_return, p_stmts, p_term, p_term_tail, params, params_tail, program, skip_ws,
    token, token2, word,
};
use crate::types::{
    Branch, Error, Expr, IfExpr, Lambda, Term, branch_of, func_of, names_of, branches_of, lemma_branches_of,
    lemma_terms_of, term_of, terms_of,
};

verus! {

pub open spec fn tree_model(r: Option<(Expr, usize)>) -> Option<(Term, int)> {
    match r {
        Some((e, q)) => Some((term_of(e), q as int)),
        None => None,
    }
}

pub open spec fn trees_model(r: Option<(Vec<Expr>, usize)>) -> Option<(Seq<Term>, int)> {
    match r {
        Some((v, q)) => Some((terms_of(v@, v@.len()), q as int)),
        None => None,
    }
}

pub open spec fn branch_model(r: Option<(IfExpr, usize)>) -> Option<(Branch, int)> {
    match r {
        Some((b, q)) => Some((branch_of(b), q as int)),
        None => None,
    }
}

pub open spec fn text_model(r: Option<(String, usize)>) -> Option<(Seq<char>, int)> {
    match r {
        Some((t, q)) => Some((t@, q as int)),
        None => None,
    }
}

pub open spec fn pos_model(r: Option<usize>) -> Option<int> {
    match r {
        Some(q) => Some(q as int),
        None => None,
    }
}

/// Every position handed back lies within the text.
pub open spec fn within<T>(r: Option<(T, usize)>, n: nat) -> bool {
    match r {
        Some((_, q)) => q <= n,
        None => true,
    }
}

proof fn lemma_terms_push(v: Seq<Expr>, x: Expr)
    ensures
        terms_of(v.push(x), v.len() + 1) == terms_of(v, v.len()).push(term_of(x)),
{
    lemma_terms_of(v.push(x), v.len() + 1);
    lemma_terms_of(v, v.len());
    assert(terms_of(v.push(x), v.len() + 1) =~= terms_of(v, v.len()).push(term_of(x)));
}

proof fn lemma_branches_push(v: Seq<IfExpr>, x: IfExpr)
    ensures
        branches_of(v.push(x), v.len() + 1) == branches_of(v, v.len()).push(branch_of(x)),
{
    lemma_branches_of(v.push(x), v.len() + 1);
    lemma_branches_of(v, v.len());
    assert(branches_of(v.push(x), v.len() + 1) =~= branches_of(v, v.len()).push(branch_of(x)));
}

fn chars_of(text: &str) -> (r: Vec<char>)
    ensures
        r@ == text@,
{
    let n = text.unicode_len();
    let mut v: Vec<char> = Vec::new();
    let mut i: usize = 0;
    while i < n
        invariant
            n == text@.len(),
            i <= n,
            v@ == text@.subrange(0, i as int),
        decreases n - i,
    {
        v.push(text.get_char(i));
        i += 1;
        assert(v@ =~= text@.subrange(0, i as int));
    }
    assert(v@ =~= text@);
    v
}

fn skip_ws_at(cs: &Vec<char>, p: usize) -> (r: usize)
    requires
        p <= cs@.len(),
    ensures
        r as int == skip_ws(cs@, p as int),
        p <= r <= cs@.len(),
{
    let mut q = p;
    while q < cs.len() && (cs[q] == ' ' || cs[q] == '\t' || cs[q] == '\n' || cs[q] == '\r')
        invariant
            p <= q <= cs@.len(),
            skip_ws(cs@, p as int) == skip_ws(cs@, q as int),
        decreases cs@.len() - q,
    {
        q += 1;
    }
    q
}

fn letters_end_at(cs: &Vec<char>, p: usize) -> (r: usize)
    requires
        p <= cs@.len(),
    ensures
        r as int == letters_end(cs@, p as int),
        p <= r <= cs@.len(),
{
    let mut q = p;
    while q < cs.len() && (('a' <= cs[q] && cs[q] <= 'z') || ('A' <= cs[q] && cs[q] <= 'Z'))
        invariant
            p <= q <= cs@.len(),
            letters_end(cs@, p as int) == letters_end(cs@, q as int),
        decreases cs@.len() - q,
    {
        q += 1;
    }
    q
}

fn digits_end_at(cs: &Vec<char>, p: usize) -> (r: usize)
    requires
        p <= cs@.len(),
    ensures
        r as int == digits_end(cs@, p as int),
        p <= r <= cs@.len(),
{
    let mut q = p;
    while q < cs.len() && '0' <= cs[q] && cs[q] <= '9'
        invariant
            p <= q <= cs@.len(),
            digits_end(cs@, p as int) == digits_end(cs@, q as int),
        decreases cs@.len() - q,
    {
        q += 1;
    }
    q
}

fn token_at(cs: &Vec<char>, p: usize, c: char) -> (r: Option<usize>)
    requires
        p <= cs@.len(),
    ensures
        pos_model(r) == token(cs@, p as int, c),
        match r {
            Some(q) => p < q <= cs@.len(),
            None => true,
        },
{
    let q = skip_ws_at(cs, p);
    if q < cs.len() && cs[q] == c {
        Some(q + 1)
    } else {
        None
    }
}

fn token2_at(cs: &Vec<char>, p: usize, a: char, b: char) -> (r: Option<usize>)
    requires
        p <= cs@.len(),
    ensures
        pos_model(r) == token2(cs@, p as int, a, b),
        match r {
            Some(q) => p < q <= cs@.len(),
            None => true,
        },
{
    let q = skip_ws_at(cs, p);
    if q < cs.len() && q + 1 < cs.len() && cs[q] == a && cs[q + 1] == b {
        Some(q + 2)
    } else {
        None
    }
}

fn word_at(text: &str, cs: &Vec<char>, p: usize) -> (r: Option<(String, usize)>)
    requires
        cs@ == text@,
        p <= cs@.len(),
    ensures
        text_model(r) == word(cs@, p as int),
        match r {
            Some((_, q)) => p < q <= cs@.len(),
            None => true,
        },
{
    let q = skip_ws_at(cs, p);
    let e = letters_end_at(cs, q);
    if q < e {
        let piece = text.substring_char(q, e);
        Some((String::from_str(piece), e))
    } else {
        None
    }
}

fn numeral_at(text: &str, cs: &Vec<char>, p: usize) -> (r: Option<(String, usize)>)
    requires
        cs@ == text@,
        p <= cs@.len(),
    ensures
        text_model(r) == numeral(cs@, p as int),
        match r {
            Some((_, q)) => p < q <= cs@.len(),
            None => true,
        },
{
    let q = skip_ws_at(cs, p);
    let e = digits_end_at(cs, q);
    if q < e {
        let piece = text.substring_char(q, e);
        Some((String::from_str(piece), e))
    } else {
        None
    }
}

fn keyword_at(cs: &Vec<char>, p: usize, kw: &str) -> (r: Option<usize>)
    requires
        p <= cs@.len(),
    ensures
        pos_model(r) == keyword(cs@, p as int, kw@),
        match r {
            Some(q) => p < q <= cs@.len(),
            None => true,
        },
{
    let q = skip_ws_at(cs, p);
    let e = letters_end_at(cs, q);
    if q >= e {
        return None;
    }
    let n = kw.unicode_len();
    if e - q != n {
        proof {
            assert(cs@.subrange(q as int, e as int).len() == e - q);
            assert(cs@.subrange(q as int, e as int) != kw@);
        }
        return None;
    }
    let mut i: usize = 0;
    while i < n
        invariant
            n == kw@.len(),
            q + n == e <= cs@.len(),
            i <= n,
            q as int == skip_ws(cs@, p as int),
            e as int == letters_end(cs@, q as int),
            p <= q < e,
            forall|j: int| 0 <= j < i ==> #[trigger] cs@[q + j] == kw@[j],
        decreases n - i,
    {
        if cs[q + i] != kw.get_char(i) {
            proof {
                assert(cs@.subrange(q as int, e as int)[i as int] != kw@[i as int]);
            }
            return None;
        }
        i += 1;
    }
    proof {
        assert forall|j: int| 0 <= j < n implies #[trigger] cs@.subrange(q as int, e as int)[j]
            == kw@[j] by {
            assert(cs@[q + j] == kw@[j]);
        }
        assert(cs@.subrange(q as int, e as int) =~= kw@);
    }
    Some(e)
}

fn params_tail_at(text: &str, cs: &Vec<char>, p: usize, acc: Vec<String>) -> (r: (Vec<String>, usize))
    requires
        cs@ == text@,
        p <= cs@.len(),
    ensures
        (names_of(r.0@), r.1 as int) == params_tail(cs@, p as int, names_of(acc@)),
        r.1 <= cs@.len(),
    decreases cs@.len() - p,
{
    match token_at(cs, p, ',') {
        Some(q) => match word_at(text, cs, q) {
            Some((n, r)) => {
                let mut acc = acc;
                let ghost before = acc@;
                acc.push(n);
                proof {
                    assert(names_of(acc@) =~= names_of(before).push(n@));
                }
                params_tail_at(text, cs, r, acc)
            },
            None => (acc, p),
        },
        None => (acc, p),
    }
}

fn params_at(text: &str, cs: &Vec<char>, p: usize) -> (r: (Vec<String>, usize))
    requires
        cs@ == text@,
        p <= cs@.len(),
    ensures
        (names_of(r.0@), r.1 as int) == params(cs@, p as int),
        r.1 <= cs@.len(),
{
    match word_at(text, cs, p) {
        Some((n, q)) => {
            let mut acc: Vec<String> = Vec::new();
            acc.push(n);
            proof {
                assert(names_of(acc@) =~= seq![n@]);
            }
            params_tail_at(text, cs, q, acc)
        },
        None => {
            let acc: Vec<String> = Vec::new();
            proof {
                assert(names_of(acc@) =~= Seq::<Seq<char>>::empty());
            }
            (acc, p)
        },
    }
}

fn expr_at(text: &str, cs: &Vec<char>, p: usize) -> (r: Option<(Expr, usize)>)
    requires
        cs@ == text@,
        p <= cs@.len(),
    ensures
        tree_model(r) == p_expr(cs@, p as int),
        within(r, cs@.len()),
    decreases cs@.len() - p, 7nat,
{
    match defun_at(text, cs, p) {
        Some(r) => Some(r),
        None => nested_at(text, cs, p),
    }
}

fn nested_at(text: &str, cs: &Vec<char>, p: usize) -> (r: Option<(Expr, usize)>)
    requires
        cs@ == text@,
        p <= cs@.len(),
    ensures
        tree_model(r) == p_nested(cs@, p as int),
        within(r, cs@.len()),
    decreases cs@.len() - p, 6nat,
{
    match let_at(text, cs, p) {
        Some(r) => Some(r),
        None => match if_at(text, cs, p) {
            Some(r) => Some(r),
            None => match return_at(text, cs, p) {
                Some(r) => Some(r),
                None => math_at(text, cs, p),
            },
        },
    }
}

fn defun_at(text: &str, cs: &Vec<char>, p: usize) -> (r: Option<(Expr, usize)>)
    requires
        cs@ == text@,
        p <= cs@.len(),
    ensures
        tree_model(r) == p_defun(cs@, p as int),
        within(r, cs@.len()),
    decreases cs@.len() - p, 5nat,
{
    let q1 = match keyword_at(cs, p, "define") {
        None => return None,
        Some(q) => q,
    };
    let (n, q2) = match word_at(text, cs, q1) {
        None => return None,
        Some(w) => w,
    };
    let q3 = match token_at(cs, q2, '(') {
        None => return None,
        Some(q) => q,
    };
    let (ps, q4) = params_at(text, cs, q3);
    let q5 = match token_at(cs, q4, ')') {
        None => return None,
        Some(q) => q,
    };
    if !(p < q5) {
        return None;
    }
    match block_at(text, cs, q5) {
        None => None,
        Some((body, q6)) => {
            let l = Lambda { params: ps, body };
            assert(func_of(l).params == names_of(ps@));
            Some((Expr::EDefun(n, l), q6))
        },
    }
}

fn let_at(text: &str, cs: &Vec<char>, p: usize) -> (r: Option<(Expr, usize)>)
    requires
        cs@ == text@,
        p <= cs@.len(),
    ensures
        tree_model(r) == p_let(cs@, p as int),
        within(r, cs@.len()),
    decreases cs@.len() - p, 5nat,
{
    let q1 = match keyword_at(cs, p, "let") {
        None => return None,
        Some(q) => q,
    };
    let (n, q2) = match word_at(text, cs, q1) {
        None => return None,
        Some(w) => w,
    };
    let q3 = match token_at(cs, q2, '=') {
        None => return None,
        Some(q) => q,
    };
    match math_at(text, cs, q3) {
        None => None,
        Some((x, q4)) => Some((Expr::ELet(n, Box::new(x)), q4)),
    }
}

fn return_at(text: &str, cs: &Vec<char>, p: usize) -> (r: Option<(Expr, usize)>)
    requires
        cs@ == text@,
        p <= cs@.len(),
    ensures
        tree_model(r) == p_return(cs@, p as int),
        within(r, cs@.len()),
    decreases cs@.len() - p, 5nat,
{
    let q1 = match keyword_at(cs, p, "return") {
        None => return None,
        Some(q) => q,
    };
    match math_at(text, cs, q1) {
        None => None,
        Some((x, q2)) => Some((Expr::EReturn(Box::new(x)), q2)),
    }
}

fn if_at(text: &str, cs: &Vec<char>, p: usize) -> (r: Option<(Expr, usize)>)
    requires
        cs@ == text@,
        p <= cs@.len(),
    ensures
        tree_model(r) == p_if(cs@, p as int),
        within(r, cs@.len()),
    decreases cs@.len() - p, 5nat,
{
    let q1 = match keyword_at(cs, p, "if") {
        None => return None,
        Some(q) => q,
    };
    let (b, q2) = match branch_at(text, cs, q1) {
        None => return None,
        Some(x) => x,
    };
    if !(p < q2 && q2 <= cs.len()) {
        return None;
    }
    let mut acc: Vec<IfExpr> = Vec::new();
    let ghost empty = acc@;
    acc.push(b);
    proof {
        lemma_branches_push(empty, b);
        lemma_branches_of(empty, 0);
        assert(branches_of(empty, 0) =~= Seq::<Branch>::empty());
        assert(branches_of(acc@, acc@.len()) =~= seq![branch_of(b)]);
    }
    else_at(text, cs, q2, acc)
}

fn else_at(text: &str, cs: &Vec<char>, p: usize, acc: Vec<IfExpr>) -> (r: Option<(Expr, usize)>)
    requires
        cs@ == text@,
        p <= cs@.len(),
    ensures
        tree_model(r) == p_else(cs@, p as int, branches_of(acc@, acc@.len())),
        within(r, cs@.len()),
    decreases cs@.len() - p, 0nat,
{
    let q1 = match keyword_at(cs, p, "else") {
        None => return None,
        Some(q) => q,
    };
    match keyword_at(cs, q1, "if") {
        Some(q2) => {
            let (b, q3) = match branch_at(text, cs, q2) {
                None => return None,
                Some(x) => x,
            };
            if !(p < q3 && q3 <= cs.len()) {
                return None;
            }
            let mut acc = acc;
            proof {
                lemma_branches_push(acc@, b);
            }
            acc.push(b);
            else_at(text, cs, q3, acc)
        },
        None => match block_at(text, cs, q1) {
            None => None,
            Some((body, q2)) => Some((Expr::EIf(acc, body), q2)),
        },
    }
}

fn branch_at(text: &str, cs: &Vec<char>, p: usize) -> (r: Option<(IfExpr, usize)>)
    requires
        cs@ == text@,
        p <= cs@.len(),
    ensures
        branch_model(r) == p_branch(cs@, p as int),
        within(r, cs@.len()),
    decreases cs@.len() - p, 0nat,
{
    let q1 = match token_at(cs, p, '(') {
        None => return None,
        Some(q) => q,
    };
    let (l, q2) = match expr_at(text, cs, q1) {
        None => return None,
        Some(x) => x,
    };
    let q3 = match token2_at(cs, q2, '=', '=') {
        None => return None,
        Some(q) => q,
    };
    if !(p < q3) {
        return None;
    }
    let (r, q4) = match expr_at(text, cs, q3) {
        None => return None,
        Some(x) => x,
    };
    let q5 = match token_at(cs, q4, ')') {
        None => return None,
        Some(q) => q,
    };
    if !(p < q5) {
        return None;
    }
    match block_at(text, cs, q5) {
        None => None,
        Some((body, q6)) => Some((IfExpr { condition: (l, r), body }, q6)),
    }
}

fn block_at(text: &str, cs: &Vec<char>, p: usize) -> (r: Option<(Vec<Expr>, usize)>)
    requires
        cs@ == text@,
        p <= cs@.len(),
    ensures
        trees_model(r) == p_block(cs@, p as int),
        within(r, cs@.len()),
    decreases cs@.len() - p, 0nat,
{
    match token_at(cs, p, '{') {
        None => None,
        Some(q) => {
            let acc: Vec<Expr> = Vec::new();
            proof {
                lemma_terms_of(acc@, 0);
                assert(terms_of(acc@, 0) =~= Seq::<Term>::empty());
            }
            stmts_at(text, cs, q, acc)
        },
    }
}

fn stmts_at(text: &str, cs: &Vec<char>, p: usize, acc: Vec<Expr>) -> (r: Option<(Vec<Expr>, usize)>)
    requires
        cs@ == text@,
        p <= cs@.len(),
    ensures
        trees_model(r) == p_stmts(cs@, p as int, terms_of(acc@, acc@.len())),
        within(r, cs@.len()),
    decreases cs@.len() - p, 8nat,
{
    match nested_at(text, cs, p) {
        Some((t, q1)) => match token_at(cs, q1, ';') {
            Some(q2) => if p < q2 {
                let mut acc = acc;
                proof {
                    lemma_terms_push(acc@, t);
                }
                acc.push(t);
                return stmts_at(text, cs, q2, acc);
            },
            None => {},
        },
        None => {},
    }
    match token_at(cs, p, '}') {
        Some(q) => Some((acc, q)),
        None => None,
    }
}

fn math_at(text: &str, cs: &Vec<char>, p: usize) -> (r: Option<(Expr, usize)>)
    requires
        cs@ == text@,
        p <= cs@.len(),
    ensures
        tree_model(r) == p_math(cs@, p as int),
        within(r, cs@.len()),
    decreases cs@.len() - p, 4nat,
{
    match term_at(text, cs, p) {
        None => None,
        Some((t, q)) => if p < q {
            Some(math_tail_at(text, cs, q, t))
        } else {
            None
        },
    }
}

fn math_tail_at(text: &str, cs: &Vec<char>, p: usize, acc: Expr) -> (r: (Expr, usize))
    requires
        cs@ == text@,
        p <= cs@.len(),
    ensures
        (term_of(r.0), r.1 as int) == p_math_tail(cs@, p as int, term_of(acc)),
        r.1 <= cs@.len(),
    decreases cs@.len() - p, 4nat,
{
    let q = skip_ws_at(cs, p);
    if q < cs.len() && (cs[q] == '+' || cs[q] == '-') {
        let plus = cs[q] == '+';
        match term_at(text, cs, q + 1) {
            Some((t, r)) => if p < r {
                let e = if plus {
                    Expr::EAdd(Box::new(acc), Box::new(t))
                } else {
                    Expr::ESub(Box::new(acc), Box::new(t))
                };
                math_tail_at(text, cs, r, e)
            } else {
                (acc, p)
            },
            None => (acc, p),
        }
    } else {
        (acc, p)
    }
}

fn term_at(text: &str, cs: &Vec<char>, p: usize) -> (r: Option<(Expr, usize)>)
    requires
        cs@ == text@,
        p <= cs@.len(),
    ensures
        tree_model(r) == p_term(cs@, p as int),
        within(r, cs@.len()),
    decreases cs@.len() - p, 3nat,
{
    match factor_at(text, cs, p) {
        None => None,
        Some((f, q)) => if p < q {
            Some(term_tail_at(text, cs, q, f))
        } else {
            None
        },
    }
}

fn term_tail_at(text: &str, cs: &Vec<char>, p: usize, acc: Expr) -> (r: (Expr, usize))
    requires
        cs@ == text@,
        p <= cs@.len(),
    ensures
        (term_of(r.0), r.1 as int) == p_term_tail(cs@, p as int, term_of(acc)),
        r.1 <= cs@.len(),
    decreases cs@.len() - p, 3nat,
{
    let q = skip_ws_at(cs, p);
    if q < cs.len() && (cs[q] == '*' || cs[q] == '/') {
        let times = cs[q] == '*';
        match factor_at(text, cs, q + 1) {
            Some((f, r)) => if p < r {
                let e = if times {
                    Expr::EMul(Box::new(acc), Box::new(f))
                } else {
                    Expr::EDiv(Box::new(acc), Box::new(f))
                };
                term_tail_at(text, cs, r, e)
            } else {
                (acc, p)
            },
            None => (acc, p),
        }
    } else {
        (acc, p)
    }
}

fn factor_at(text: &str, cs: &Vec<char>, p: usize) -> (r: Option<(Expr, usize)>)
    requires
        cs@ == text@,
        p <= cs@.len(),
    ensures
        tree_model(r) == p_factor(cs@, p as int),
        within(r, cs@.len()),
    decreases cs@.len() - p, 2nat,
{
    let (a, q) = match operand_at(text, cs, p) {
        None => return None,
        Some(x) => x,
    };
    match token_at(cs, q, '^') {
        Some(q1) => if p < q1 {
            match factor_at(text, cs, q1) {
                Some((b, q2)) => Some((Expr::EExp(Box::new(a), Box::new(b)), q2)),
                None => Some((a, q)),
            }
        } else {
            Some((a, q))
        },
        None => Some((a, q)),
    }
}

fn operand_at(text: &str, cs: &Vec<char>, p: usize) -> (r: Option<(Expr, usize)>)
    requires
        cs@ == text@,
        p <= cs@.len(),
    ensures
        tree_model(r) == p_operand(cs@, p as int),
        within(r, cs@.len()),
    decreases cs@.len() - p, 1nat,
{
    if let Some(r) = call_at(text, cs, p) {
        return Some(r);
    }
    if let Some((n, q)) = word_at(text, cs, p) {
        return Some((Expr::EVar(n), q));
    }
    if let Some((d, q)) = numeral_at(text, cs, p) {
        return Some((Expr::ENum(d), q));
    }
    let q1 = match token_at(cs, p, '(') {
        None => return None,
        Some(q) => q,
    };
    let (x, q2) = match math_at(text, cs, q1) {
        None => return None,
        Some(r) => r,
    };
    match token_at(cs, q2, ')') {
        None => None,
        Some(q3) => Some((x, q3)),
    }
}

fn call_at(text: &str, cs: &Vec<char>, p: usize) -> (r: Option<(Expr, usize)>)
    requires
        cs@ == text@,
        p <= cs@.len(),
    ensures
        tree_model(r) == p_call(cs@, p as int),
        within(r, cs@.len()),
    decreases cs@.len() - p, 0nat,
{
    let (n, q1) = match word_at(text, cs, p) {
        None => return None,
        Some(w) => w,
    };
    let q2 = match token_at(cs, q1, '(') {
        None => return None,
        Some(q) => q,
    };
    let (args, q3) = match args_at(text, cs, q2) {
        None => return None,
        Some(x) => x,
    };
    match token_at(cs, q3, ')') {
        None => None,
        Some(q4) => Some((Expr::EFunCall(n, args), q4)),
    }
}

fn args_at(text: &str, cs: &Vec<char>, p: usize) -> (r: Option<(Vec<Expr>, usize)>)
    requires
        cs@ == text@,
        p <= cs@.len(),
    ensures
        trees_model(r) == p_args(cs@, p as int),
        within(r, cs@.len()),
    decreases cs@.len() - p, 8nat,
{
    let mut acc: Vec<Expr> = Vec::new();
    proof {
        lemma_terms_of(acc@, 0);
        assert(terms_of(acc@, 0) =~= Seq::<Term>::empty());
    }
    match expr_at(text, cs, p) {
        None => Some((acc, p)),
        Some((t, q)) => if p < q {
            let ghost empty = acc@;
            acc.push(t);
            proof {
                lemma_terms_push(empty, t);
                assert(terms_of(acc@, acc@.len()) =~= seq![term_of(t)]);
            }
            args_tail_at(text, cs, q, acc)
        } else {
            None
        },
    }
}

fn args_tail_at(text: &str, cs: &Vec<char>, p: usize, acc: Vec<Expr>) -> (r: Option<(Vec<Expr>, usize)>)
    requires
        cs@ == text@,
        p <= cs@.len(),
    ensures
        trees_model(r) == p_args_tail(cs@, p as int, terms_of(acc@, acc@.len())),
        within(r, cs@.len()),
    decreases cs@.len() - p, 0nat,
{
    let q1 = match token_at(cs, p, ',') {
        None => return Some((acc, p)),
        Some(q) => q,
    };
    match expr_at(text, cs, q1) {
        None => Some((acc, p)),
        Some((t, q2)) => if p < q2 {
            let mut acc = acc;
            proof {
                lemma_terms_push(acc@, t);
            }
            acc.push(t);
            args_tail_at(text, cs, q2, acc)
        } else {
            None
        },
    }
}

/// Parses the top-level construct at the start of `input`; what follows it is ignored.
pub fn parse(input: &str) -> (r: Result<Expr, Error>)
    ensures
        match p_expr(input@, 0) {
            Some((t, _)) => r matches Ok(e) && term_of(e) == t,
            None => r matches Err(Error::ParseError),
        },
{
    match expr(input) {
        Ok((_, e)) => Ok(e),
        Err(x) => Err(x),
    }
}

/// Parses the top-level construct at the start of `input`, and gives back the text that
/// follows it with the tree.
pub fn expr(input: &str) -> (r: Result<(String, Expr), Error>)
    ensures
        match p_expr(input@, 0) {
            Some((t, q)) => r matches Ok((rest, e)) && term_of(e) == t && rest@ == input@.subrange(
                q,
                input@.len() as int,
            ),
            None => r matches Err(Error::ParseError),
        },
{
    let cs = chars_of(input);
    match expr_at(input, &cs, 0) {
        None => Err(Error::ParseError),
        Some((e, q)) => {
            let rest = input.substring_char(q, cs.len());
            Ok((String::from_str(rest), e))
        },
    }
}

/// Reads the constructs of a whole text one after another. The flag tells whether reading
/// reached the end of the text; when it is false, reading stopped at text that no construct
/// matches, and the constructs before it are those returned.
pub fn parse_all(input: &str) -> (r: (Vec<Expr>, bool))
    ensures
        terms_of(r.0@, r.0@.len()) == program(input@, 0).0,
        r.1 == program(input@, 0).1,
{
    let cs = chars_of(input);
    let mut out: Vec<Expr> = Vec::new();
    let mut p: usize = 0;
    proof {
        lemma_terms_of(out@, 0);
        assert(terms_of(out@, 0) + program(cs@, 0).0 =~= program(cs@, 0).0);
    }
    loop
        invariant
            cs@ == input@,
            p <= cs@.len(),
            program(cs@, 0).0 == terms_of(out@, out@.len()) + program(cs@, p as int).0,
            program(cs@, 0).1 == program(cs@, p as int).1,
        decreases cs@.len() - p,
    {
        let q = skip_ws_at(&cs, p);
        if q >= cs.len() {
            proof {
                assert(terms_of(out@, out@.len()) + Seq::<Term>::empty() =~= terms_of(out@, out@.len()));
            }
            return (out, true);
        }
        match expr_at(input, &cs, p) {
            Some((e, r)) => {
                if !(p < r) {
                    proof {
                        assert(terms_of(out@, out@.len()) + Seq::<Term>::empty() =~= terms_of(out@, out@.len()));
                    }
                    return (out, false);
                }
                proof {
                    lemma_terms_push(out@, e);
                    assert(terms_of(out@, out@.len()) + (seq![term_of(e)] + program(cs@, r as int).0)
                        =~= terms_of(out@, out@.len()).push(term_of(e)) + program(cs@, r as int).0);
                }
                out.push(e);
                p = r;
            },
            None => {
                proof {
                    assert(terms_of(out@, out@.len()) + Seq::<Term>::empty() =~= terms_of(out@, out@.len()));
                }
                return (out, false);
            },
        }
    }
}

} // verus!
