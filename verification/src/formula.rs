//! A recipe's formula, as `get_recipe` answers it, read back by the recipe
//! parser gives the recipe again, for recipes whose names, keys and values
//! are plain words.
use vstd::prelude::*;

use crate::recipe::{
    action_formula, collect_params, comma_sep, digit_value, insert_param, is_digit, join, key_is,
    param_text, parse_action, parse_actions, parse_step, parse_steps, parse_u32, recipe_formula,
    scan_u32, step_formula, action_body, arrow, arrow_sep, parse_recipe, ActionModel, StepModel,
    RecipeModel,
};
use crate::seqs::lemma_first_index_at;
use crate::text::{
    decimal, digit_char, find_pat, idx_of, is_ws, lemma_find_pat_at, lemma_idx_of_at, occurs_at,
    split_char, split_once, split_pat, trim, trim_end, trim_end_matches, trim_start,
    trim_start_matches,
};

verus! {

/// `c` then a space.
pub open spec fn sep_of(c: char) -> Seq<char> {
    seq![c, ' ']
}

/// A single space.
pub open spec fn sp() -> Seq<char> {
    seq![' ']
}

/// Whether `s` holds no `c`.
pub open spec fn lacks(s: Seq<char>, c: char) -> bool {
    forall|i: int| 0 <= i < s.len() ==> s[i] != c
}

proof fn lemma_lacks_concat(a: Seq<char>, b: Seq<char>, c: char)
    requires
        lacks(a, c),
        lacks(b, c),
    ensures
        lacks(a + b, c),
{
    assert forall|i: int| 0 <= i < (a + b).len() implies (a + b)[i] != c by {
        if i >= a.len() {
            assert((a + b)[i] == b[i - a.len()]);
        }
    }
}

proof fn lemma_idx_of_absent(s: Seq<char>, c: char)
    requires
        lacks(s, c),
    ensures
        idx_of(s, c) < 0,
{
    lemma_idx_of_at(s, c, s.len() as int);
}

proof fn lemma_idx_of_first(a: Seq<char>, c: char, b: Seq<char>)
    requires
        lacks(a, c),
    ensures
        idx_of(a + seq![c] + b, c) == a.len(),
        (a + seq![c] + b).take(a.len() as int) == a,
        (a + seq![c] + b).skip(a.len() as int + 1) == b,
{
    let s = a + seq![c] + b;
    assert forall|j: int| 0 <= j < a.len() implies s[j] != c by {
        assert(s[j] == a[j]);
    }
    assert(s[a.len() as int] == c);
    lemma_idx_of_at(s, c, a.len() as int);
    assert(s.take(a.len() as int) =~= a);
    assert(s.skip(a.len() as int + 1) =~= b);
}

/// Trimming leaves a text whose ends are not white space as it is.
proof fn lemma_trim_keeps(s: Seq<char>)
    requires
        s.len() > 0,
        !is_ws(s[0]),
        !is_ws(s.last()),
    ensures
        trim(s) == s,
{
}

/// Trimming removes one space put before and one put after.
proof fn lemma_trim_padded(s: Seq<char>, before: bool, after: bool)
    requires
        s.len() > 0,
        !is_ws(s[0]),
        !is_ws(s.last()),
    ensures
        trim((if before { seq![' '] } else { seq![] }) + s + (if after { seq![' '] } else { seq![] }))
            == s,
{
    let pre: Seq<char> = if before { seq![' '] } else { seq![] };
    let post: Seq<char> = if after { seq![' '] } else { seq![] };
    let t = pre + s + post;
    assert(is_ws(' '));
    let u = s + post;
    assert(u[0] == s[0]);
    assert(trim_start(u) == u);
    if before {
        assert(t[0] == ' ');
        assert(t.drop_first() =~= u);
        assert(trim_start(t) == trim_start(u));
    } else {
        assert(t =~= u);
    }
    assert(trim_start(t) == u);
    assert(trim_end(s) == s);
    if after {
        assert(u.last() == ' ');
        assert(u.drop_last() =~= s);
        assert(trim_end(u) == trim_end(s));
    } else {
        assert(u =~= s);
    }
    assert(trim_end(u) == s);
}

/// `join` taken apart from the front.
proof fn lemma_join_front(parts: Seq<Seq<char>>, sep: Seq<char>)
    requires
        parts.len() >= 2,
    ensures
        join(parts, sep) == parts[0] + sep + join(parts.drop_first(), sep),
    decreases parts.len(),
{
    if parts.len() == 2 {
        assert(parts.drop_last().len() == 1);
        assert(parts.drop_first().len() == 1);
        assert(join(parts.drop_last(), sep) == parts[0]);
        assert(join(parts.drop_first(), sep) == parts[1]);
    } else {
        lemma_join_front(parts.drop_last(), sep);
        assert(parts.drop_last().drop_first() =~= parts.drop_first().drop_last());
        assert(parts.drop_first().last() == parts.last());
        assert(parts.drop_last()[0] == parts[0]);
        let a = join(parts.drop_last().drop_first(), sep);
        assert(join(parts.drop_first(), sep) == a + sep + parts.last());
        assert(join(parts, sep) == parts[0] + sep + a + sep + parts.last());
        assert(parts[0] + sep + a + sep + parts.last() =~= parts[0] + sep + (a + sep
            + parts.last()));
    }
}

proof fn lemma_join_lacks(parts: Seq<Seq<char>>, sep: Seq<char>, c: char)
    requires
        lacks(sep, c),
        forall|i: int| 0 <= i < parts.len() ==> lacks(#[trigger] parts[i], c),
    ensures
        lacks(join(parts, sep), c),
    decreases parts.len(),
{
    if parts.len() >= 2 {
        lemma_join_lacks(parts.drop_last(), sep, c);
        lemma_lacks_concat(join(parts.drop_last(), sep), sep, c);
        lemma_lacks_concat(join(parts.drop_last(), sep) + sep, parts.last(), c);
    }
}

/// `split_char` of pieces joined by `c` and a space gives the pieces, each
/// but the first after a space.
proof fn lemma_split_joined(parts: Seq<Seq<char>>, c: char)
    requires
        parts.len() >= 1,
        c != ' ',
        forall|i: int| 0 <= i < parts.len() ==> lacks(#[trigger] parts[i], c),
    ensures
        split_char(join(parts, sep_of(c)), c).len() == parts.len(),
        split_char(join(parts, sep_of(c)), c)[0] == parts[0],
        forall|i: int|
            1 <= i < parts.len() ==> #[trigger] split_char(join(parts, sep_of(c)), c)[i]
                == seq![' '] + parts[i],
    decreases parts.len(),
{
    let sep = sep_of(c);
    if parts.len() == 1 {
        lemma_idx_of_absent(parts[0], c);
    } else {
        lemma_join_front(parts, sep);
        let rest = join(parts.drop_first(), sep);
        let s = join(parts, sep);
        assert(s =~= parts[0] + seq![c] + (seq![' '] + rest));
        lemma_idx_of_first(parts[0], c, seq![' '] + rest);
        assert(split_char(s, c) == seq![parts[0]] + split_char(seq![' '] + rest, c));
        lemma_split_joined_tail(parts.drop_first(), c);
        let tail = split_char(seq![' '] + rest, c);
        assert forall|i: int| 1 <= i < parts.len() implies #[trigger] split_char(s, c)[i] == seq![
            ' ',
        ] + parts[i] by {
            assert(split_char(s, c)[i] == tail[i - 1]);
            assert(parts.drop_first()[i - 1] == parts[i]);
        }
    }
}

/// The pieces of a joined text that starts with a space.
proof fn lemma_split_joined_tail(parts: Seq<Seq<char>>, c: char)
    requires
        parts.len() >= 1,
        c != ' ',
        forall|i: int| 0 <= i < parts.len() ==> lacks(#[trigger] parts[i], c),
    ensures
        split_char(sp() + join(parts, sep_of(c)), c).len() == parts.len(),
        forall|i: int|
            0 <= i < parts.len() ==> #[trigger] split_char(sp() + join(parts, sep_of(c)), c)[i]
                == seq![' '] + parts[i],
    decreases parts.len(),
{
    let sep = sep_of(c);
    let s = join(parts, sep);
    if parts.len() == 1 {
        let t = seq![' '] + parts[0];
        assert forall|j: int| 0 <= j < t.len() implies t[j] != c by {
            if j > 0 {
                assert(t[j] == parts[0][j - 1]);
            }
        }
        lemma_idx_of_absent(t, c);
    } else {
        lemma_join_front(parts, sep);
        let rest = join(parts.drop_first(), sep);
        let t = seq![' '] + parts[0];
        assert forall|j: int| 0 <= j < t.len() implies t[j] != c by {
            if j > 0 {
                assert(t[j] == parts[0][j - 1]);
            }
        }
        assert(seq![' '] + s =~= t + seq![c] + (seq![' '] + rest));
        lemma_idx_of_first(t, c, seq![' '] + rest);
        assert(split_char(seq![' '] + s, c) == seq![t] + split_char(seq![' '] + rest, c));
        lemma_split_joined_tail(parts.drop_first(), c);
        let tail = split_char(seq![' '] + rest, c);
        assert forall|i: int| 0 <= i < parts.len() implies #[trigger] split_char(seq![' '] + s, c)[i]
            == seq![' '] + parts[i] by {
            if i > 0 {
                assert(split_char(seq![' '] + s, c)[i] == tail[i - 1]);
                assert(parts.drop_first()[i - 1] == parts[i]);
            }
        }
    }
}

proof fn lemma_scan_push(d: Seq<char>, c: char, acc: int, x: u32)
    requires
        0 <= acc <= u32::MAX,
        scan_u32(d, acc) == Ok::<u32, crate::recipe::IntErrorKind>(x),
        is_digit(c),
        x * 10 + digit_value(c) <= u32::MAX,
    ensures
        scan_u32(d.push(c), acc) == Ok::<u32, crate::recipe::IntErrorKind>((x * 10 + digit_value(c)) as u32),
    decreases d.len(),
{
    let s = d.push(c);
    if d.len() == 0 {
        assert(scan_u32(d, acc) == Ok::<u32, crate::recipe::IntErrorKind>(acc as u32));
        assert(x == acc);
        assert(s[0] == c);
        assert(s.drop_first() =~= Seq::<char>::empty());
        let v = acc * 10 + digit_value(c);
        assert(scan_u32(s, acc) == scan_u32(s.drop_first(), v));
        assert(scan_u32(Seq::<char>::empty(), v) == Ok::<u32, crate::recipe::IntErrorKind>(v as u32));
    } else {
        let a2 = acc * 10 + digit_value(d[0]);
        assert(is_digit(d[0]));
        assert(a2 <= u32::MAX);
        assert(scan_u32(d, acc) == scan_u32(d.drop_first(), a2));
        assert(s[0] == d[0]);
        assert(s.drop_first() =~= d.drop_first().push(c));
        assert(scan_u32(s, acc) == scan_u32(s.drop_first(), a2));
        lemma_scan_push(d.drop_first(), c, a2, x);
    }
}

proof fn lemma_digit_char(k: int)
    requires
        0 <= k < 10,
    ensures
        is_digit(digit_char(k)),
        digit_value(digit_char(k)) == k,
        !is_ws(digit_char(k)),
{
    assert(digit_char(k) as u32 == k + 48);
}

/// The decimal digits of `n` are digits, and `u32::from_str` reads them as `n`.
pub proof fn lemma_decimal_parses(n: nat)
    requires
        n <= u32::MAX,
    ensures
        decimal(n).len() >= 1,
        forall|i: int| 0 <= i < decimal(n).len() ==> is_digit(#[trigger] decimal(n)[i]),
        scan_u32(decimal(n), 0) == Ok::<u32, crate::recipe::IntErrorKind>(n as u32),
        parse_u32(decimal(n)) == Ok::<u32, crate::recipe::IntErrorKind>(n as u32),
    decreases n,
{
    if n < 10 {
        lemma_digit_char(n as int);
        let s = decimal(n);
        assert(s[0] == digit_char(n as int));
        assert(s.drop_first() =~= Seq::<char>::empty());
        assert(scan_u32(s, 0) == scan_u32(s.drop_first(), 0 * 10 + digit_value(s[0])));
        assert(scan_u32(Seq::<char>::empty(), n as int) == Ok::<u32, crate::recipe::IntErrorKind>(n as u32));
    } else {
        let q = n / 10;
        let r = n % 10;
        lemma_decimal_parses(q);
        lemma_digit_char(r as int);
        assert(q * 10 + r == n) by (nonlinear_arith)
            requires
                q == n / 10,
                r == n % 10,
        ;
        lemma_scan_push(decimal(q), digit_char(r as int), 0, q as u32);
        assert(((q as u32) * 10 + digit_value(digit_char(r as int))) == n);
        let s = decimal(n);
        assert(s == decimal(q).push(digit_char(r as int)));
        assert forall|i: int| 0 <= i < s.len() implies is_digit(#[trigger] s[i]) by {
            if i < decimal(q).len() {
                assert(s[i] == decimal(q)[i]);
            }
        }
    }
    let s = decimal(n);
    assert(is_digit(s[0]));
}

/// A character that the recipe format gives no meaning to.
pub open spec fn plain_char(c: char) -> bool {
    &&& !is_ws(c)
    &&& c != '(' && c != ')' && c != '[' && c != ']'
    &&& c != ',' && c != '=' && c != '^' && c != '-'
}

/// A non-empty word of plain characters.
pub open spec fn plain(s: Seq<char>) -> bool {
    s.len() > 0 && forall|i: int| 0 <= i < s.len() ==> plain_char(#[trigger] s[i])
}

/// No key occurs twice.
pub open spec fn distinct_keys(ps: Seq<(Seq<char>, Seq<char>)>) -> bool {
    forall|i: int, j: int| 0 <= i < j < ps.len() ==> ps[i].0 != ps[j].0
}

/// An action that its formula describes exactly: a plain name, plain keys
/// and values, each key once; inside a parallel group (`grouped`) at most
/// one parameter, since the group is split at every comma.
pub open spec fn wf_action(a: ActionModel, grouped: bool) -> bool {
    &&& plain(a.name)
    &&& forall|i: int| #![trigger a.params[i]] 0 <= i < a.params.len() ==> plain(a.params[i].0) && plain(a.params[i].1)
    &&& distinct_keys(a.params)
    &&& grouped ==> a.params.len() <= 1
}

/// A step whose actions are well formed; a parallel group is not empty.
pub open spec fn wf_step(st: StepModel) -> bool {
    match st {
        StepModel::Single(a) => wf_action(a, false),
        StepModel::Parallel(v) => v.len() >= 1 && forall|i: int| 0 <= i < v.len() ==> wf_action(#[trigger] v[i], true),
    }
}

/// A recipe with a plain name and well-formed steps.
pub open spec fn wf_recipe(r: RecipeModel) -> bool {
    &&& plain(r.name)
    &&& forall|i: int| 0 <= i < r.steps.len() ==> wf_step(#[trigger] r.steps[i])
}

/// One space before `s` when `before`.
pub open spec fn pad(before: bool) -> Seq<char> {
    if before { seq![' '] } else { seq![] }
}

/// The `key=value` piece `piece` reads as the parameter `p`.
pub open spec fn piece_reads(piece: Seq<char>, p: (Seq<char>, Seq<char>)) -> bool {
    match split_once(piece, '=') {
        Some((k, v)) => trim(k) == p.0 && trim(v) == p.1,
        None => false,
    }
}

proof fn lemma_plain(s: Seq<char>)
    requires
        plain(s),
    ensures
        lacks(s, '('), lacks(s, ')'), lacks(s, '['), lacks(s, ']'),
        lacks(s, ','), lacks(s, '='), lacks(s, '^'), lacks(s, '-'),
        !is_ws(s[0]), !is_ws(s.last()),
        trim(s) == s,
{
    assert(plain_char(s[0]));
    assert(plain_char(s[s.len() - 1]));
    lemma_trim_keeps(s);
}

proof fn lemma_piece_reads(p: (Seq<char>, Seq<char>), before: bool)
    requires
        plain(p.0),
        plain(p.1),
    ensures
        piece_reads(pad(before) + param_text(p), p),
{
    lemma_plain(p.0);
    lemma_plain(p.1);
    let k = pad(before) + p.0;
    assert forall|i: int| 0 <= i < k.len() implies k[i] != '=' by {
        if before && i > 0 {
            assert(k[i] == p.0[i - 1]);
        } else if !before {
            assert(k[i] == p.0[i]);
        }
    }
    assert(pad(before) + param_text(p) =~= k + seq!['='] + p.1);
    lemma_idx_of_first(k, '=', p.1);
    lemma_trim_padded(p.0, before, false);
    assert(pad(before) + p.0 + seq![] =~= k);
}

proof fn lemma_collect(
    pieces: Seq<Seq<char>>,
    acc: Seq<(Seq<char>, Seq<char>)>,
    ps: Seq<(Seq<char>, Seq<char>)>,
)
    requires
        pieces.len() == ps.len(),
        forall|i: int| 0 <= i < pieces.len() ==> piece_reads(#[trigger] pieces[i], ps[i]),
        distinct_keys(acc + ps),
    ensures
        collect_params(pieces, acc) == acc + ps,
    decreases pieces.len(),
{
    if pieces.len() == 0 {
        assert(acc + ps =~= acc);
    } else {
        assert(piece_reads(pieces[0], ps[0]));
        let key = ps[0].0;
        assert forall|j: int| 0 <= j < acc.len() implies !key_is(key)(acc[j]) by {
            assert((acc + ps)[j] == acc[j]);
            assert((acc + ps)[acc.len() as int] == ps[0]);
        }
        lemma_first_index_at(acc, key_is(key), acc.len() as int);
        let next = acc.push(ps[0]);
        assert(insert_param(acc, ps[0].0, ps[0].1) == next);
        assert(next + ps.drop_first() =~= acc + ps);
        assert forall|i: int| 0 <= i < pieces.drop_first().len() implies piece_reads(
            #[trigger] pieces.drop_first()[i],
            ps.drop_first()[i],
        ) by {
            assert(piece_reads(pieces[i + 1], ps[i + 1]));
        }
        lemma_collect(pieces.drop_first(), next, ps.drop_first());
    }
}

proof fn lemma_join_ends(parts: Seq<Seq<char>>, sep: Seq<char>)
    requires
        parts.len() >= 1,
        parts[0].len() > 0,
        parts.last().len() > 0,
    ensures
        join(parts, sep).len() > 0,
        join(parts, sep)[0] == parts[0][0],
        join(parts, sep).last() == parts.last().last(),
{
    if parts.len() >= 2 {
        lemma_join_front(parts, sep);
        let j = join(parts, sep);
        assert(j[0] == parts[0][0]);
        assert(j == join(parts.drop_last(), sep) + sep + parts.last());
    }
}

proof fn lemma_wf_param(a: ActionModel, grouped: bool, i: int)
    requires
        wf_action(a, grouped),
        0 <= i < a.params.len(),
    ensures
        plain(a.params[i].0),
        plain(a.params[i].1),
{
}

proof fn lemma_param_text(p: (Seq<char>, Seq<char>))
    requires
        plain(p.0),
        plain(p.1),
    ensures
        lacks(param_text(p), ','), lacks(param_text(p), '('), lacks(param_text(p), ')'),
        lacks(param_text(p), '['), lacks(param_text(p), ']'), lacks(param_text(p), '^'),
        lacks(param_text(p), '-'),
        param_text(p).len() > 0,
        param_text(p)[0] == p.0[0],
        param_text(p).last() == p.1.last(),
{
    lemma_plain(p.0);
    lemma_plain(p.1);
    let t = param_text(p);
    assert forall|i: int| 0 <= i < t.len() implies t[i] == '=' || plain_char(t[i]) by {
        if i < p.0.len() {
            assert(t[i] == p.0[i]);
        } else if i > p.0.len() {
            assert(t[i] == p.1[i - p.0.len() - 1]);
        }
    }
}

/// The parameter list of an action as written: `k=v, k=v`.
pub open spec fn params_text(ps: Seq<(Seq<char>, Seq<char>)>) -> Seq<char> {
    join(ps.map_values(|p: (Seq<char>, Seq<char>)| param_text(p)), comma_sep())
}

proof fn lemma_params_text(a: ActionModel, grouped: bool)
    requires
        wf_action(a, grouped),
        a.params.len() >= 1,
    ensures
        collect_params(split_char(params_text(a.params), ','), seq![]) == a.params,
        params_text(a.params).len() > 0,
        !is_ws(params_text(a.params)[0]),
        !is_ws(params_text(a.params).last()),
        params_text(a.params).last() != ')',
        params_text(a.params).last() != ']',
        lacks(params_text(a.params), '('),
        lacks(params_text(a.params), ')'),
        lacks(params_text(a.params), '['),
        lacks(params_text(a.params), ']'),
        lacks(params_text(a.params), '^'),
        lacks(params_text(a.params), '-'),
        grouped ==> lacks(params_text(a.params), ','),
{
    let ps = a.params;
    let pts = ps.map_values(|p: (Seq<char>, Seq<char>)| param_text(p));
    assert(comma_sep() =~= sep_of(','));
    assert forall|i: int| 0 <= i < pts.len() implies lacks(#[trigger] pts[i], ',') && lacks(pts[i], '(')
        && lacks(pts[i], ')') && lacks(pts[i], '[') && lacks(pts[i], ']') && lacks(pts[i], '^')
        && lacks(pts[i], '-') && pts[i].len() > 0 && pts[i][0] == ps[i].0[0] && pts[i].last()
        == ps[i].1.last() by {
        lemma_wf_param(a, grouped, i);
        lemma_param_text(ps[i]);
    }
    let j = join(pts, sep_of(','));
    assert(params_text(ps) == j);
    lemma_join_ends(pts, sep_of(','));
    assert(plain(ps[0].0));
    assert(plain(ps[ps.len() - 1].1));
    lemma_plain(ps[0].0);
    lemma_plain(ps[ps.len() - 1].1);
    let sep = sep_of(',');
    assert(lacks(sep, '(') && lacks(sep, ')') && lacks(sep, '[') && lacks(sep, ']') && lacks(sep, '^')
        && lacks(sep, '-'));
    lemma_join_lacks(pts, sep, '(');
    lemma_join_lacks(pts, sep, ')');
    lemma_join_lacks(pts, sep, '[');
    lemma_join_lacks(pts, sep, ']');
    lemma_join_lacks(pts, sep, '^');
    lemma_join_lacks(pts, sep, '-');
    if grouped {
        assert(pts.len() == 1);
        assert(j == pts[0]);
    }
    lemma_split_joined(pts, ',');
    let pieces = split_char(j, ',');
    assert(pieces.len() == ps.len());
    assert forall|i: int| 0 <= i < pieces.len() implies piece_reads(#[trigger] pieces[i], ps[i]) by {
        assert(0 <= i < a.params.len());
        assert(plain(a.params[i].0) && plain(a.params[i].1));
        lemma_piece_reads(ps[i], i > 0);
        if i == 0 {
            assert(pad(false) + param_text(ps[i]) =~= pts[0]);
        } else {
            assert(pieces[i] == seq![' '] + pts[i]);
        }
    }
    assert(seq![] + ps =~= ps);
    lemma_collect(pieces, seq![], ps);
}

proof fn lemma_lacks3(a: Seq<char>, b: Seq<char>, c: Seq<char>, ch: char)
    requires
        lacks(a, ch),
        lacks(b, ch),
        lacks(c, ch),
    ensures
        lacks(a + b + c, ch),
{
    lemma_lacks_concat(a, b, ch);
    lemma_lacks_concat(a + b, c, ch);
}

proof fn lemma_digit_plain(c: char)
    requires
        is_digit(c),
    ensures
        plain_char(c),
{
}

/// The text of an action's parameters, in parentheses when it has any.
pub open spec fn params_part(ps: Seq<(Seq<char>, Seq<char>)>) -> Seq<char> {
    if ps.len() == 0 {
        seq![]
    } else {
        seq!['('] + params_text(ps) + seq![')']
    }
}

/// The repetition suffix of an action: `^n` when `n != 1`.
pub open spec fn repeat_part(n: u32) -> Seq<char> {
    if n == 1 {
        seq![]
    } else {
        seq!['^'] + decimal(n as nat)
    }
}

proof fn lemma_action_parts(a: ActionModel)
    ensures
        action_formula(a) == a.name + params_part(a.params) + repeat_part(a.repeat),
{
    let pts1 = a.params.map_values(|p: (Seq<char>, Seq<char>)| param_text(p));
    assert(params_text(a.params) == join(pts1, comma_sep()));
    assert(action_formula(a) =~= a.name + params_part(a.params) + repeat_part(a.repeat));
}

proof fn lemma_repeat_part(n: u32)
    ensures
        lacks(repeat_part(n), '-'), lacks(repeat_part(n), '['), lacks(repeat_part(n), ']'),
        lacks(repeat_part(n), ','),
        repeat_part(n).len() > 0 ==> !is_ws(repeat_part(n).last()) && repeat_part(n).last() != ']',
        n != 1 ==> parse_u32(decimal(n as nat)) == Ok::<u32, crate::recipe::IntErrorKind>(n),
{
    if n != 1 {
        lemma_decimal_parses(n as nat);
        let d = decimal(n as nat);
        let t = repeat_part(n);
        assert forall|i: int| 0 <= i < t.len() implies t[i] == '^' || plain_char(#[trigger] t[i]) by {
            if i > 0 {
                assert(t[i] == d[i - 1]);
                lemma_digit_plain(d[i - 1]);
            }
        }
        assert(plain_char(t[t.len() - 1]));
    }
}

proof fn lemma_params_part(a: ActionModel, grouped: bool)
    requires
        wf_action(a, grouped),
    ensures
        lacks(params_part(a.params), '-'), lacks(params_part(a.params), '['),
        lacks(params_part(a.params), ']'), lacks(params_part(a.params), '^'),
        grouped ==> lacks(params_part(a.params), ','),
        params_part(a.params).len() > 0 ==> params_part(a.params).last() == ')',
        action_body(a.name + params_part(a.params), a.repeat) == a,
{
    let name = a.name;
    lemma_plain(name);
    let pp = params_part(a.params);
    let body = name + pp;
    if a.params.len() == 0 {
        assert(body =~= name);
        lemma_idx_of_absent(name, '(');
        assert(action_body(body, a.repeat) =~= a);
    } else {
        lemma_params_text(a, grouped);
        let t = params_text(a.params);
        let open: Seq<char> = seq!['('];
        let close: Seq<char> = seq![')'];
        assert(lacks(open, '-') && lacks(open, '[') && lacks(open, ']') && lacks(open, '^') && lacks(open, ','));
        assert(lacks(close, '-') && lacks(close, '[') && lacks(close, ']') && lacks(close, '^') && lacks(close, ','));
        lemma_lacks3(open, t, close, '-');
        lemma_lacks3(open, t, close, '[');
        lemma_lacks3(open, t, close, ']');
        lemma_lacks3(open, t, close, '^');
        if grouped {
            lemma_lacks3(open, t, close, ',');
        }
        assert(body =~= name + seq!['('] + (t + close));
        lemma_idx_of_first(name, '(', t + close);
        let tc = t + close;
        assert(tc.last() == ')');
        assert(tc.drop_last() =~= t);
        assert(trim_end_matches(tc, ')') == trim_end_matches(t, ')'));
        assert(trim_end_matches(t, ')') == t);
        assert(action_body(body, a.repeat) =~= a);
    }
}

/// An action as written reads back as itself.
pub proof fn lemma_action_formula(a: ActionModel, grouped: bool)
    requires
        wf_action(a, grouped),
    ensures
        parse_action(action_formula(a)) == Ok::<ActionModel, Seq<char>>(a),
        action_formula(a).len() > 0,
        action_formula(a)[0] == a.name[0],
        !is_ws(action_formula(a)[0]),
        !is_ws(action_formula(a).last()),
        action_formula(a).last() != ']',
        action_formula(a)[0] != '[',
        lacks(action_formula(a), '-'),
        lacks(action_formula(a), '['),
        lacks(action_formula(a), ']'),
        grouped ==> lacks(action_formula(a), ','),
{
    let name = a.name;
    lemma_plain(name);
    lemma_action_parts(a);
    lemma_params_part(a, grouped);
    lemma_repeat_part(a.repeat);
    let pp = params_part(a.params);
    let rp = repeat_part(a.repeat);
    let body = name + pp;
    let f = action_formula(a);
    assert(f == body + rp);
    lemma_lacks3(name, pp, rp, '-');
    lemma_lacks3(name, pp, rp, '[');
    lemma_lacks3(name, pp, rp, ']');
    if grouped {
        lemma_lacks3(name, pp, rp, ',');
    }
    lemma_lacks_concat(name, pp, '^');
    assert(f[0] == name[0]);
    if a.repeat == 1 {
        assert(f =~= body);
        lemma_idx_of_absent(body, '^');
    } else {
        let d = decimal(a.repeat as nat);
        assert(f =~= body + seq!['^'] + d);
        lemma_idx_of_first(body, '^', d);
    }
    if rp.len() > 0 {
        assert(f.last() == rp.last());
    } else if pp.len() > 0 {
        assert(f.last() == pp.last());
    } else {
        assert(f.last() == name.last());
    }
}

proof fn lemma_parse_actions(pieces: Seq<Seq<char>>, v: Seq<ActionModel>)
    requires
        pieces.len() == v.len(),
        forall|i: int|
            0 <= i < pieces.len() ==> parse_action(trim(#[trigger] pieces[i])) == Ok::<
                ActionModel,
                Seq<char>,
            >(v[i]),
    ensures
        parse_actions(pieces) == Ok::<Seq<ActionModel>, Seq<char>>(v),
    decreases pieces.len(),
{
    if pieces.len() == 0 {
        assert(v =~= seq![]);
    } else {
        assert(parse_action(trim(pieces[0])) == Ok::<ActionModel, Seq<char>>(v[0]));
        assert forall|i: int| 0 <= i < pieces.drop_first().len() implies parse_action(
            trim(#[trigger] pieces.drop_first()[i]),
        ) == Ok::<ActionModel, Seq<char>>(v.drop_first()[i]) by {
            assert(pieces.drop_first()[i] == pieces[i + 1]);
        }
        lemma_parse_actions(pieces.drop_first(), v.drop_first());
        assert(seq![v[0]] + v.drop_first() =~= v);
    }
}

/// A step as written reads back as itself.
pub proof fn lemma_step_formula(st: StepModel)
    requires
        wf_step(st),
    ensures
        parse_step(step_formula(st)) == Ok::<StepModel, Seq<char>>(st),
        step_formula(st).len() > 0,
        !is_ws(step_formula(st)[0]),
        !is_ws(step_formula(st).last()),
        lacks(step_formula(st), '-'),
{
    match st {
        StepModel::Single(a) => {
            lemma_action_formula(a, false);
        },
        StepModel::Parallel(v) => {
            let afs = v.map_values(|a: ActionModel| action_formula(a));
            let sep = sep_of(',');
            assert(comma_sep() =~= sep);
            let j = join(afs, sep);
            let f = step_formula(st);
            assert(f =~= seq!['['] + j + seq![']']);
            assert forall|i: int| 0 <= i < afs.len() implies lacks(#[trigger] afs[i], ',') && lacks(
                afs[i],
                '-',
            ) && afs[i].len() > 0 && !is_ws(afs[i][0]) && !is_ws(afs[i].last()) && afs[i][0] != '['
                && afs[i].last() != ']' && parse_action(afs[i]) == Ok::<ActionModel, Seq<char>>(v[i]) by {
                assert(wf_action(v[i], true));
                lemma_action_formula(v[i], true);
            }
            lemma_join_ends(afs, sep);
            assert(afs[0][0] != '[');
            assert(afs.last().last() != ']');
            assert(lacks(sep, '-'));
            lemma_join_lacks(afs, sep, '-');
            let jc = j + seq![']'];
            assert(f.drop_first() =~= jc);
            assert(trim_start_matches(f, '[') == trim_start_matches(jc, '['));
            assert(jc[0] == j[0]);
            assert(trim_start_matches(jc, '[') == jc);
            assert(jc.drop_last() =~= j);
            assert(trim_end_matches(jc, ']') == trim_end_matches(j, ']'));
            assert(trim_end_matches(j, ']') == j);
            lemma_split_joined(afs, ',');
            let pieces = split_char(j, ',');
            assert(pieces.len() == v.len());
            assert forall|i: int| 0 <= i < pieces.len() implies parse_action(trim(#[trigger] pieces[i]))
                == Ok::<ActionModel, Seq<char>>(v[i]) by {
                lemma_trim_padded(afs[i], i > 0, false);
                if i == 0 {
                    assert(pad(false) + afs[i] + seq![] =~= pieces[i]);
                } else {
                    assert(pieces[i] == seq![' '] + afs[i]);
                    assert(pad(true) + afs[i] + seq![] =~= pieces[i]);
                }
            }
            lemma_parse_actions(pieces, v);
            let open: Seq<char> = seq!['['];
            let close: Seq<char> = seq![']'];
            assert(lacks(open, '-') && lacks(close, '-'));
            lemma_lacks3(open, j, close, '-');
        },
    }
}

proof fn lemma_find_arrow(a: Seq<char>, b: Seq<char>, present: bool)
    requires
        lacks(a, '-'),
        !present ==> b.len() == 0,
    ensures
        present ==> find_pat(a + arrow() + b, arrow()) == a.len(),
        !present ==> find_pat(a, arrow()) < 0,
{
    let s = if present { a + arrow() + b } else { a };
    let k = a.len() as int;
    assert forall|j: int| 0 <= j < k implies !occurs_at(s, arrow(), j) by {
        assert(s[j] == a[j]);
        if occurs_at(s, arrow(), j) {
            assert(s.subrange(j, j + 2)[0] == s[j]);
        }
    }
    if present {
        assert(s.subrange(k, k + 2) =~= arrow());
    }
    lemma_find_pat_at(s, arrow(), k);
}

/// Split at every `->`, a text of pieces joined by ` -> ` after a space
/// gives each piece with a space before and, but for the last, one after.
proof fn lemma_split_arrows(parts: Seq<Seq<char>>)
    requires
        parts.len() >= 1,
        forall|i: int| 0 <= i < parts.len() ==> lacks(#[trigger] parts[i], '-'),
    ensures
        split_pat(sp() + join(parts, arrow_sep()), arrow()).len() == parts.len(),
        forall|i: int|
            0 <= i < parts.len() ==> #[trigger] split_pat(sp() + join(parts, arrow_sep()), arrow())[i]
                == pad(true) + parts[i] + pad(i < parts.len() - 1),
    decreases parts.len(),
{
    let sep = arrow_sep();
    let s = sp() + join(parts, sep);
    let sp1: Seq<char> = seq![' '];
    assert(lacks(sp1, '-'));
    if parts.len() == 1 {
        lemma_lacks_concat(sp1, parts[0], '-');
        assert(s =~= sp1 + parts[0]);
        lemma_find_arrow(s, seq![], false);
        assert(s =~= pad(true) + parts[0] + pad(false));
    } else {
        lemma_join_front(parts, sep);
        let rest = join(parts.drop_first(), sep);
        let a = sp1 + parts[0] + sp1;
        lemma_lacks3(sp1, parts[0], sp1, '-');
        assert(s =~= a + arrow() + (sp1 + rest));
        lemma_find_arrow(a, sp1 + rest, true);
        assert(s.take(a.len() as int) =~= a);
        assert(s.skip(a.len() as int + 2) =~= sp1 + rest);
        assert(split_pat(s, arrow()) == seq![a] + split_pat(sp() + rest, arrow()));
        assert forall|i: int| 0 <= i < parts.drop_first().len() implies lacks(
            #[trigger] parts.drop_first()[i],
            '-',
        ) by {
            assert(parts.drop_first()[i] == parts[i + 1]);
        }
        lemma_split_arrows(parts.drop_first());
        let tail = split_pat(sp() + rest, arrow());
        assert forall|i: int| 0 <= i < parts.len() implies #[trigger] split_pat(s, arrow())[i]
            == pad(true) + parts[i] + pad(i < parts.len() - 1) by {
            if i == 0 {
                assert(a =~= pad(true) + parts[0] + pad(true));
            } else {
                assert(split_pat(s, arrow())[i] == tail[i - 1]);
                assert(parts.drop_first()[i - 1] == parts[i]);
            }
        }
    }
}

proof fn lemma_parse_steps(pieces: Seq<Seq<char>>, steps: Seq<StepModel>)
    requires
        pieces.len() == steps.len(),
        forall|i: int|
            0 <= i < pieces.len() ==> trim(#[trigger] pieces[i]) == step_formula(steps[i]),
        forall|i: int|
            0 <= i < steps.len() ==> step_formula(#[trigger] steps[i]).len() > 0 && parse_step(
                step_formula(steps[i]),
            ) == Ok::<StepModel, Seq<char>>(steps[i]),
    ensures
        parse_steps(pieces) == Ok::<Seq<StepModel>, Seq<char>>(steps),
    decreases pieces.len(),
{
    if pieces.len() == 0 {
        assert(steps =~= seq![]);
    } else {
        assert(trim(pieces[0]) == step_formula(steps[0]));
        assert(step_formula(steps[0]).len() > 0);
        assert forall|i: int| 0 <= i < pieces.drop_first().len() implies trim(
            #[trigger] pieces.drop_first()[i],
        ) == step_formula(steps.drop_first()[i]) by {
            assert(pieces.drop_first()[i] == pieces[i + 1]);
            assert(steps.drop_first()[i] == steps[i + 1]);
        }
        assert forall|i: int| 0 <= i < steps.drop_first().len() implies step_formula(
            #[trigger] steps.drop_first()[i],
        ).len() > 0 && parse_step(step_formula(steps.drop_first()[i])) == Ok::<
            StepModel,
            Seq<char>,
        >(steps.drop_first()[i]) by {
            assert(steps.drop_first()[i] == steps[i + 1]);
        }
        lemma_parse_steps(pieces.drop_first(), steps.drop_first());
        assert(seq![steps[0]] + steps.drop_first() =~= steps);
    }
}

/// A recipe written as `Name = ` followed by its formula, the line that a
/// recipe file holds, reads back as the same recipe, for recipes whose
/// names, keys and values are plain words, whose parallel groups are not
/// empty and hold actions of at most one parameter, and whose actions name
/// each key once.
pub proof fn lemma_recipe_formula_parses(r: RecipeModel)
    requires
        wf_recipe(r),
    ensures
        parse_recipe(r.name + seq![' ', '=', ' '] + recipe_formula(r)) == Ok::<RecipeModel, Seq<char>>(r),
{
    let name = r.name;
    lemma_plain(name);
    let f = recipe_formula(r);
    let sp1: Seq<char> = seq![' '];
    let left = name + sp1;
    lemma_lacks_concat(name, sp1, '=');
    assert(r.name + seq![' ', '=', ' '] + f =~= left + seq!['='] + (sp1 + f));
    lemma_idx_of_first(left, '=', sp1 + f);
    lemma_trim_padded(name, false, true);
    assert(pad(false) + name + pad(true) =~= left);
    let sfs = r.steps.map_values(|st: StepModel| step_formula(st));
    assert(f == join(sfs, arrow_sep()));
    assert forall|i: int| 0 <= i < r.steps.len() implies step_formula(#[trigger] r.steps[i]).len() > 0
        && parse_step(step_formula(r.steps[i])) == Ok::<StepModel, Seq<char>>(r.steps[i]) && lacks(
        step_formula(r.steps[i]),
        '-',
    ) && !is_ws(step_formula(r.steps[i])[0]) && !is_ws(step_formula(r.steps[i]).last()) by {
        lemma_step_formula(r.steps[i]);
    }
    if r.steps.len() == 0 {
        assert(f =~= seq![]);
        assert(sp1 + f =~= sp1);
        lemma_find_arrow(sp1, seq![], false);
        let pieces = split_pat(sp1, arrow());
        assert(pieces == seq![sp1]);
        assert(trim_start(sp1) == trim_start(sp1.drop_first()));
        assert(trim(pieces[0]).len() == 0);
        assert(pieces.drop_first() =~= Seq::<Seq<char>>::empty());
        assert(parse_steps(pieces) == parse_steps(pieces.drop_first()));
        assert(r.steps =~= Seq::<StepModel>::empty());
    } else {
        assert forall|i: int| 0 <= i < sfs.len() implies lacks(#[trigger] sfs[i], '-') by {
            assert(sfs[i] == step_formula(r.steps[i]));
        }
        lemma_split_arrows(sfs);
        let pieces = split_pat(sp() + f, arrow());
        assert(sp() == sp1);
        assert forall|i: int| 0 <= i < pieces.len() implies trim(#[trigger] pieces[i]) == step_formula(
            r.steps[i],
        ) by {
            assert(sfs[i] == step_formula(r.steps[i]));
            lemma_trim_padded(sfs[i], true, i < sfs.len() - 1);
        }
        lemma_parse_steps(pieces, r.steps);
    }
}

} // verus!
