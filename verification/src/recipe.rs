//! Recipes and their text format.
//!
//! A recipe file holds blocks separated by an empty line. A block reads
//! `Name = Step -> Step -> ...`, where a step is an action
//! `Name(key=value, ...)^n` or a parallel group `[Action, Action]`.
use vstd::prelude::*;

use crate::seqs::{first_index, lemma_first_index, lemma_first_index_at};
use crate::text::{
    chars_of, split_char, split_chars, split_once, split_once_chars, split_pat, string_of, trim,
    trim_chars, trim_end_matches, trim_end_matches_chars, trim_start_matches,
    trim_start_matches_chars, split_pattern, decimal, decimal_u128,
};

verus! {

/// One production action: its name, its named parameters and how many times
/// it is repeated.
pub struct Action {
    pub name: String,
    /// Parameters in the order they were first given; the parser gives each
    /// key once.
    pub params: Vec<(String, String)>,
    pub repeat: u32,
}

/// A step of a recipe: one action, or actions done in parallel.
pub enum Step {
    Single(Action),
    Parallel(Vec<Action>),
}

/// A named sequence of steps.
pub struct Recipe {
    pub name: String,
    pub steps: Vec<Step>,
}

#[verifier::ext_equal]
pub struct ActionModel {
    pub name: Seq<char>,
    pub params: Seq<(Seq<char>, Seq<char>)>,
    pub repeat: u32,
}

#[verifier::ext_equal]
pub enum StepModel {
    Single(ActionModel),
    Parallel(Seq<ActionModel>),
}

#[verifier::ext_equal]
pub struct RecipeModel {
    pub name: Seq<char>,
    pub steps: Seq<StepModel>,
}

pub open spec fn params_view(ps: Seq<(String, String)>) -> Seq<(Seq<char>, Seq<char>)> {
    ps.map_values(|p: (String, String)| (p.0@, p.1@))
}

pub open spec fn actions_view(v: Seq<Action>) -> Seq<ActionModel> {
    v.map_values(|a: Action| a@)
}

pub open spec fn steps_view(v: Seq<Step>) -> Seq<StepModel> {
    v.map_values(|s: Step| s@)
}

impl View for Action {
    type V = ActionModel;

    open spec fn view(&self) -> ActionModel {
        ActionModel { name: self.name@, params: params_view(self.params@), repeat: self.repeat }
    }
}

impl View for Step {
    type V = StepModel;

    open spec fn view(&self) -> StepModel {
        match self {
            Step::Single(a) => StepModel::Single(a@),
            Step::Parallel(v) => StepModel::Parallel(actions_view(v@)),
        }
    }
}

impl View for Recipe {
    type V = RecipeModel;

    open spec fn view(&self) -> RecipeModel {
        RecipeModel { name: self.name@, steps: steps_view(self.steps@) }
    }
}

/// Why a decimal number did not parse, as `std::num::IntErrorKind` tells it.
#[derive(PartialEq, Eq, Structural, Clone, Copy, Debug)]
pub enum IntErrorKind {
    Empty,
    InvalidDigit,
    PosOverflow,
}

/// The text that `ParseIntError` displays for each kind.
pub open spec fn int_error_text(k: IntErrorKind) -> Seq<char> {
    match k {
        IntErrorKind::Empty => "cannot parse integer from empty string"@,
        IntErrorKind::InvalidDigit => "invalid digit found in string"@,
        IntErrorKind::PosOverflow => "number too large to fit in target type"@,
    }
}

pub open spec fn is_digit(c: char) -> bool {
    '0' as u32 <= c as u32 <= '9' as u32
}

pub open spec fn digit_value(c: char) -> int {
    c as u32 - '0' as u32
}

/// Reads decimal digits left to right into `acc`, failing at the first
/// character that is not a digit or at the first value past `u32::MAX`.
pub open spec fn scan_u32(d: Seq<char>, acc: int) -> Result<u32, IntErrorKind>
    decreases d.len(),
{
    if d.len() == 0 {
        Ok(acc as u32)
    } else if !is_digit(d[0]) {
        Err(IntErrorKind::InvalidDigit)
    } else if acc * 10 + digit_value(d[0]) > u32::MAX {
        Err(IntErrorKind::PosOverflow)
    } else {
        scan_u32(d.drop_first(), acc * 10 + digit_value(d[0]))
    }
}

/// `u32::from_str`: an optional `+`, then decimal digits.
pub open spec fn parse_u32(s: Seq<char>) -> Result<u32, IntErrorKind> {
    if s.len() == 0 {
        Err(IntErrorKind::Empty)
    } else if s.len() == 1 && (s[0] == '+' || s[0] == '-') {
        Err(IntErrorKind::InvalidDigit)
    } else if s[0] == '+' {
        scan_u32(s.drop_first(), 0)
    } else {
        scan_u32(s, 0)
    }
}

/// Whether a parameter has the key `key`.
pub open spec fn key_is(key: Seq<char>) -> spec_fn((Seq<char>, Seq<char>)) -> bool {
    |p: (Seq<char>, Seq<char>)| p.0 == key
}

/// `params` with `key` set to `value`: replaced where the key is, else added.
pub open spec fn insert_param(
    params: Seq<(Seq<char>, Seq<char>)>,
    key: Seq<char>,
    value: Seq<char>,
) -> Seq<(Seq<char>, Seq<char>)> {
    let i = first_index(params, key_is(key));
    if i < 0 {
        params.push((key, value))
    } else {
        params.update(i, (key, value))
    }
}

/// Adds to `acc`, in order, each `key=value` piece (both sides trimmed);
/// pieces without `=` are skipped.
pub open spec fn collect_params(pieces: Seq<Seq<char>>, acc: Seq<(Seq<char>, Seq<char>)>) -> Seq<
    (Seq<char>, Seq<char>),
>
    decreases pieces.len(),
{
    if pieces.len() == 0 {
        acc
    } else {
        let next = match split_once(pieces[0], '=') {
            Some((k, v)) => insert_param(acc, trim(k), trim(v)),
            None => acc,
        };
        collect_params(pieces.drop_first(), next)
    }
}

/// An action without its repetition suffix: `Name` or `Name(k=v,...)`.
pub open spec fn action_body(s: Seq<char>, repeat: u32) -> ActionModel {
    match split_once(s, '(') {
        Some((name, rest)) => ActionModel {
            name: trim(name),
            params: collect_params(split_char(trim_end_matches(rest, ')'), ','), seq![]),
            repeat,
        },
        None => ActionModel { name: trim(s), params: seq![], repeat },
    }
}

/// `Action::from_str`: the text after the first `^` is the repetition count.
pub open spec fn parse_action(s: Seq<char>) -> Result<ActionModel, Seq<char>> {
    match split_once(s, '^') {
        Some((left, n)) => match parse_u32(n) {
            Ok(r) => Ok(action_body(left, r)),
            Err(e) => Err(int_error_text(e)),
        },
        None => Ok(action_body(s, 1)),
    }
}

/// Parses each piece (trimmed) as an action; the first failure is the result.
pub open spec fn parse_actions(pieces: Seq<Seq<char>>) -> Result<Seq<ActionModel>, Seq<char>>
    decreases pieces.len(),
{
    if pieces.len() == 0 {
        Ok(seq![])
    } else {
        match parse_action(trim(pieces[0])) {
            Err(e) => Err(e),
            Ok(a) => match parse_actions(pieces.drop_first()) {
                Ok(rest) => Ok(seq![a] + rest),
                Err(e) => Err(e),
            },
        }
    }
}

/// A step (already trimmed): `[A, B]` is a parallel group, anything else one action.
pub open spec fn parse_step(piece: Seq<char>) -> Result<StepModel, Seq<char>> {
    if piece.len() > 0 && piece[0] == '[' {
        let inner = trim_end_matches(trim_start_matches(piece, '['), ']');
        match parse_actions(split_char(inner, ',')) {
            Ok(v) => Ok(StepModel::Parallel(v)),
            Err(e) => Err(e),
        }
    } else {
        match parse_action(piece) {
            Ok(a) => Ok(StepModel::Single(a)),
            Err(e) => Err(e),
        }
    }
}

/// Parses each non-blank piece (trimmed) as a step; the first failure is the result.
pub open spec fn parse_steps(pieces: Seq<Seq<char>>) -> Result<Seq<StepModel>, Seq<char>>
    decreases pieces.len(),
{
    if pieces.len() == 0 {
        Ok(seq![])
    } else if trim(pieces[0]).len() == 0 {
        parse_steps(pieces.drop_first())
    } else {
        match parse_step(trim(pieces[0])) {
            Err(e) => Err(e),
            Ok(st) => match parse_steps(pieces.drop_first()) {
                Ok(rest) => Ok(seq![st] + rest),
                Err(e) => Err(e),
            },
        }
    }
}

pub open spec fn arrow() -> Seq<char> {
    seq!['-', '>']
}

pub open spec fn missing_equals_text() -> Seq<char> {
    "pas de '='"@
}

/// `Recipe::from_str`: the name before the first `=`, then steps separated by `->`.
pub open spec fn parse_recipe(s: Seq<char>) -> Result<RecipeModel, Seq<char>> {
    match split_once(s, '=') {
        None => Err(missing_equals_text()),
        Some((name, rest)) => match parse_steps(split_pat(rest, arrow())) {
            Ok(steps) => Ok(RecipeModel { name: trim(name), steps }),
            Err(e) => Err(e),
        },
    }
}

/// `parse_u32` on the digits of a vector.
pub fn parse_u32_chars(cs: &[char]) -> (res: Result<u32, IntErrorKind>)
    ensures
        res == parse_u32(cs@),
{
    if cs.len() == 0 {
        return Err(IntErrorKind::Empty);
    }
    if cs.len() == 1 && (cs[0] == '+' || cs[0] == '-') {
        return Err(IntErrorKind::InvalidDigit);
    }
    let start: usize = if cs[0] == '+' {
        1
    } else {
        0
    };
    let ghost d = cs@.skip(start as int);
    assert(start == 1 ==> d == cs@.drop_first());
    assert(start == 0 ==> d == cs@);
    assert(parse_u32(cs@) == scan_u32(d, 0));
    let mut acc: u32 = 0;
    let mut i: usize = start;
    while i < cs.len()
        invariant
            start <= i <= cs.len(),
            d == cs@.skip(start as int),
            parse_u32(cs@) == scan_u32(d, 0),
            scan_u32(d, 0) == scan_u32(cs@.skip(i as int), acc as int),
        decreases cs.len() - i,
    {
        let c = cs[i];
        let ghost rest = cs@.skip(i as int);
        assert(rest[0] == c);
        let n = c as u32;
        if n < '0' as u32 || n > '9' as u32 {
            return Err(IntErrorKind::InvalidDigit);
        }
        let v: u64 = (acc as u64) * 10 + ((c as u32) - ('0' as u32)) as u64;
        if v > u32::MAX as u64 {
            return Err(IntErrorKind::PosOverflow);
        }
        assert(rest.drop_first() == cs@.skip(i + 1));
        acc = v as u32;
        i = i + 1;
    }
    assert(cs@.skip(i as int).len() == 0);
    Ok(acc)
}

/// The text of a number-parsing failure.
pub fn int_error_message(k: IntErrorKind) -> (res: String)
    ensures
        res@ == int_error_text(k),
{
    match k {
        IntErrorKind::Empty => "cannot parse integer from empty string".to_owned(),
        IntErrorKind::InvalidDigit => "invalid digit found in string".to_owned(),
        IntErrorKind::PosOverflow => "number too large to fit in target type".to_owned(),
    }
}

/// Sets `key` to `value` in `params`, replacing the value of an equal key.
fn insert_param_exec(params: &mut Vec<(String, String)>, key: String, value: String)
    ensures
        params_view(final(params)@) == insert_param(params_view(old(params)@), key@, value@),
{
    let ghost pv = params_view(params@);
    let ghost p = key_is(key@);
    let mut j: usize = 0;
    while j < params.len()
        invariant
            j <= params.len(),
            pv == params_view(params@),
            params@ == old(params)@,
            p == key_is(key@),
            forall|m: int| 0 <= m < j ==> !p(pv[m]),
        decreases params.len() - j,
    {
        if params[j].0 == key {
            proof {
                assert(pv[j as int].0 == key@);
                assert(p(pv[j as int]));
                lemma_first_index_at(pv, p, j as int);
                assert(first_index(pv, key_is(key@)) == j);
            }
            params.set(j, (key, value));
            assert(params_view(params@) =~= pv.update(j as int, (key@, value@)));
            return ;
        }
        j = j + 1;
    }
    proof {
        lemma_first_index_at(pv, p, pv.len() as int);
    }
    params.push((key, value));
    assert(params_view(params@) =~= pv.push((key@, value@)));
}

/// The parameters written inside the parentheses of an action.
fn parse_params(raw: &[char]) -> (res: Vec<(String, String)>)
    ensures
        params_view(res@) == collect_params(split_char(raw@, ','), seq![]),
{
    let pieces = split_chars(raw, ',');
    let ghost all = pieces.deep_view();
    let mut res: Vec<(String, String)> = Vec::new();
    let mut i: usize = 0;
    assert(all.skip(0) == all);
    assert(params_view(res@) =~= seq![]);
    while i < pieces.len()
        invariant
            i <= pieces.len(),
            all == pieces.deep_view(),
            collect_params(all, seq![]) == collect_params(all.skip(i as int), params_view(res@)),
        decreases pieces.len() - i,
    {
        let piece = pieces[i].as_slice();
        assert(piece@ == all[i as int]);
        assert(all.skip(i as int).drop_first() == all.skip(i + 1));
        match split_once_chars(piece, '=') {
            Some((k, v)) => {
                let kt = trim_chars(k.as_slice());
                let vt = trim_chars(v.as_slice());
                insert_param_exec(&mut res, string_of(kt.as_slice()), string_of(vt.as_slice()));
            },
            None => {},
        }
        i = i + 1;
    }
    res
}

/// `action_body` on characters.
fn parse_action_body(s: &[char], repeat: u32) -> (res: Action)
    ensures
        res@ == action_body(s@, repeat),
{
    match split_once_chars(s, '(') {
        Some((name, rest)) => {
            let raw = trim_end_matches_chars(rest.as_slice(), ')');
            let params = parse_params(raw.as_slice());
            let name = string_of(trim_chars(name.as_slice()).as_slice());
            Action { name, params, repeat }
        },
        None => {
            let name = string_of(trim_chars(s).as_slice());
            let params: Vec<(String, String)> = Vec::new();
            assert(params_view(params@) =~= seq![]);
            Action { name, params, repeat }
        },
    }
}

/// `parse_action` on characters.
pub fn parse_action_chars(s: &[char]) -> (res: Result<Action, String>)
    ensures
        match res {
            Ok(a) => parse_action(s@) == Ok::<ActionModel, Seq<char>>(a@),
            Err(e) => parse_action(s@) == Err::<ActionModel, Seq<char>>(e@),
        },
{
    match split_once_chars(s, '^') {
        Some((left, n)) => match parse_u32_chars(n.as_slice()) {
            Ok(r) => Ok(parse_action_body(left.as_slice(), r)),
            Err(e) => Err(int_error_message(e)),
        },
        None => Ok(parse_action_body(s, 1)),
    }
}

impl Action {
    /// Parses one action, such as `AddCheese(amount=2)^3`, `Bake(duration=5)`
    /// or `MakeDough`. Fails only when the count after `^` is no `u32`.
    pub fn from_str(s: &str) -> (res: Result<Action, String>)
        ensures
            match res {
                Ok(a) => parse_action(s@) == Ok::<ActionModel, Seq<char>>(a@),
                Err(e) => parse_action(s@) == Err::<ActionModel, Seq<char>>(e@),
            },
    {
        let cs = chars_of(s);
        parse_action_chars(cs.as_slice())
    }
}

/// `pre` put in front of the sequence that `r` holds, if it holds one.
pub open spec fn prepend_ok<T>(pre: Seq<T>, r: Result<Seq<T>, Seq<char>>) -> Result<
    Seq<T>,
    Seq<char>,
> {
    match r {
        Ok(v) => Ok(pre + v),
        Err(e) => Err(e),
    }
}

/// `parse_actions` on pieces of characters.
fn parse_actions_exec(pieces: &Vec<Vec<char>>) -> (res: Result<Vec<Action>, String>)
    ensures
        match res {
            Ok(v) => parse_actions(pieces.deep_view()) == Ok::<Seq<ActionModel>, Seq<char>>(
                actions_view(v@),
            ),
            Err(e) => parse_actions(pieces.deep_view()) == Err::<Seq<ActionModel>, Seq<char>>(
                e@,
            ),
        },
{
    let ghost all = pieces.deep_view();
    let mut acc: Vec<Action> = Vec::new();
    let mut i: usize = 0;
    assert(all.skip(0) == all);
    assert(actions_view(acc@) =~= seq![]);
    assert(prepend_ok(seq![], parse_actions(all)) == parse_actions(all)) by {
        match parse_actions(all) {
            Ok(v) => assert(seq![] + v == v),
            Err(e) => {},
        }
    }
    while i < pieces.len()
        invariant
            i <= pieces.len(),
            all == pieces.deep_view(),
            parse_actions(all) == prepend_ok(actions_view(acc@), parse_actions(all.skip(i as int))),
        decreases pieces.len() - i,
    {
        let piece = pieces[i].as_slice();
        assert(piece@ == all[i as int]);
        let ghost rest = all.skip(i as int);
        assert(rest[0] == all[i as int]);
        assert(rest.drop_first() == all.skip(i + 1));
        let t = trim_chars(piece);
        match parse_action_chars(t.as_slice()) {
            Err(e) => {
                return Err(e);
            },
            Ok(a) => {
                let ghost before = actions_view(acc@);
                acc.push(a);
                assert(actions_view(acc@) =~= before.push(a@));
                assert(prepend_ok(before, parse_actions(rest)) == prepend_ok(
                    actions_view(acc@),
                    parse_actions(all.skip(i + 1)),
                )) by {
                    match parse_actions(all.skip(i + 1)) {
                        Ok(v) => assert(before + (seq![a@] + v) == before.push(a@) + v),
                        Err(e) => {},
                    }
                }
            },
        }
        i = i + 1;
    }
    assert(all.skip(i as int).len() == 0);
    assert(actions_view(acc@) + seq![] == actions_view(acc@));
    Ok(acc)
}

/// `parse_step` on characters.
fn parse_step_exec(piece: &[char]) -> (res: Result<Step, String>)
    ensures
        match res {
            Ok(st) => parse_step(piece@) == Ok::<StepModel, Seq<char>>(st@),
            Err(e) => parse_step(piece@) == Err::<StepModel, Seq<char>>(e@),
        },
{
    if piece.len() > 0 && piece[0] == '[' {
        let inner0 = trim_start_matches_chars(piece, '[');
        let inner = trim_end_matches_chars(inner0.as_slice(), ']');
        let parts = split_chars(inner.as_slice(), ',');
        match parse_actions_exec(&parts) {
            Ok(v) => Ok(Step::Parallel(v)),
            Err(e) => Err(e),
        }
    } else {
        match parse_action_chars(piece) {
            Ok(a) => Ok(Step::Single(a)),
            Err(e) => Err(e),
        }
    }
}

/// `parse_steps` on pieces of characters.
fn parse_steps_exec(pieces: &Vec<Vec<char>>) -> (res: Result<Vec<Step>, String>)
    ensures
        match res {
            Ok(v) => parse_steps(pieces.deep_view()) == Ok::<Seq<StepModel>, Seq<char>>(
                steps_view(v@),
            ),
            Err(e) => parse_steps(pieces.deep_view()) == Err::<Seq<StepModel>, Seq<char>>(e@),
        },
{
    let ghost all = pieces.deep_view();
    let mut acc: Vec<Step> = Vec::new();
    let mut i: usize = 0;
    assert(all.skip(0) == all);
    assert(steps_view(acc@) =~= seq![]);
    assert(prepend_ok(seq![], parse_steps(all)) == parse_steps(all)) by {
        match parse_steps(all) {
            Ok(v) => assert(seq![] + v == v),
            Err(e) => {},
        }
    }
    while i < pieces.len()
        invariant
            i <= pieces.len(),
            all == pieces.deep_view(),
            parse_steps(all) == prepend_ok(steps_view(acc@), parse_steps(all.skip(i as int))),
        decreases pieces.len() - i,
    {
        let piece = pieces[i].as_slice();
        assert(piece@ == all[i as int]);
        let ghost rest = all.skip(i as int);
        assert(rest[0] == all[i as int]);
        assert(rest.drop_first() == all.skip(i + 1));
        let t = trim_chars(piece);
        if t.len() > 0 {
            match parse_step_exec(t.as_slice()) {
                Err(e) => {
                    return Err(e);
                },
                Ok(st) => {
                    let ghost before = steps_view(acc@);
                    acc.push(st);
                    assert(steps_view(acc@) =~= before.push(st@));
                    assert(prepend_ok(before, parse_steps(rest)) == prepend_ok(
                        steps_view(acc@),
                        parse_steps(all.skip(i + 1)),
                    )) by {
                        match parse_steps(all.skip(i + 1)) {
                            Ok(v) => assert(before + (seq![st@] + v) == before.push(st@) + v),
                            Err(e) => {},
                        }
                    }
                },
            }
        }
        i = i + 1;
    }
    assert(all.skip(i as int).len() == 0);
    assert(steps_view(acc@) + seq![] == steps_view(acc@));
    Ok(acc)
}

/// `parse_recipe` on characters.
pub fn parse_recipe_chars(s: &[char]) -> (res: Result<Recipe, String>)
    ensures
        match res {
            Ok(r) => parse_recipe(s@) == Ok::<RecipeModel, Seq<char>>(r@),
            Err(e) => parse_recipe(s@) == Err::<RecipeModel, Seq<char>>(e@),
        },
{
    match split_once_chars(s, '=') {
        None => Err("pas de '='".to_owned()),
        Some((name, rest)) => {
            let arrow_chars: Vec<char> = vec!['-', '>'];
            assert(arrow_chars@ == arrow());
            let pieces = split_pattern(rest.as_slice(), arrow_chars.as_slice());
            match parse_steps_exec(&pieces) {
                Ok(steps) => {
                    let name = string_of(trim_chars(name.as_slice()).as_slice());
                    Ok(Recipe { name, steps })
                },
                Err(e) => Err(e),
            }
        },
    }
}

impl Recipe {
    /// Parses one recipe block, such as
    /// `Margherita = MakeDough -> [AddCheese(amount=2), AddBasil] -> Bake(duration=5)`.
    /// Fails without an `=`, or when an action's repetition count is no `u32`.
    pub fn from_str(s: &str) -> (res: Result<Recipe, String>)
        ensures
            match res {
                Ok(r) => parse_recipe(s@) == Ok::<RecipeModel, Seq<char>>(r@),
                Err(e) => parse_recipe(s@) == Err::<RecipeModel, Seq<char>>(e@),
            },
    {
        let cs = chars_of(s);
        parse_recipe_chars(cs.as_slice())
    }
}

/// Whether a recipe has the name `name`.
pub open spec fn name_is(name: Seq<char>) -> spec_fn(RecipeModel) -> bool {
    |r: RecipeModel| r.name == name
}

/// No two recipes of `book` share a name.
pub open spec fn distinct_names(book: Seq<RecipeModel>) -> bool {
    forall|i: int, j: int|
        0 <= i < book.len() && 0 <= j < book.len() && i != j ==> book[i].name != book[j].name
}

/// `book` with `r` stored under its name: it replaces a recipe of the same
/// name where that one stands, else it is added at the end.
pub open spec fn insert_recipe(book: Seq<RecipeModel>, r: RecipeModel) -> Seq<RecipeModel> {
    let i = first_index(book, name_is(r.name));
    if i < 0 {
        book.push(r)
    } else {
        book.update(i, r)
    }
}

pub open spec fn recipes_view(v: Seq<Recipe>) -> Seq<RecipeModel> {
    v.map_values(|r: Recipe| r@)
}

pub open spec fn blank_line() -> Seq<char> {
    seq!['\n', '\n']
}

/// Stores, in order, the recipe of each non-blank block (trimmed) into `acc`;
/// the first block that does not parse is the result.
pub open spec fn load_blocks(blocks: Seq<Seq<char>>, acc: Seq<RecipeModel>) -> Result<
    Seq<RecipeModel>,
    Seq<char>,
>
    decreases blocks.len(),
{
    if blocks.len() == 0 {
        Ok(acc)
    } else if trim(blocks[0]).len() == 0 {
        load_blocks(blocks.drop_first(), acc)
    } else {
        match parse_recipe(trim(blocks[0])) {
            Err(e) => Err(e),
            Ok(r) => load_blocks(blocks.drop_first(), insert_recipe(acc, r)),
        }
    }
}

/// The recipes of a whole file: blocks separated by an empty line.
pub open spec fn parse_recipe_file(content: Seq<char>) -> Result<Seq<RecipeModel>, Seq<char>> {
    load_blocks(split_pat(content, blank_line()), seq![])
}

pub proof fn lemma_insert_recipe_distinct(book: Seq<RecipeModel>, r: RecipeModel)
    requires
        distinct_names(book),
    ensures
        distinct_names(insert_recipe(book, r)),
        insert_recipe(book, r).len() >= book.len(),
{
    lemma_first_index(book, name_is(r.name));
}

/// Recipes by name; each name once.
pub struct RecipeBook {
    recipes: Vec<Recipe>,
}

impl View for RecipeBook {
    type V = Seq<RecipeModel>;

    closed spec fn view(&self) -> Seq<RecipeModel> {
        recipes_view(self.recipes@)
    }
}

impl RecipeBook {
    #[verifier::type_invariant]
    closed spec fn names_unique(self) -> bool {
        distinct_names(recipes_view(self.recipes@))
    }

    /// The book without recipes.
    pub fn new() -> (res: RecipeBook)
        ensures
            res@ == Seq::<RecipeModel>::empty(),
    {
        let res = RecipeBook { recipes: Vec::new() };
        assert(res@ =~= Seq::<RecipeModel>::empty());
        res
    }

    /// Stores `r` under its name, replacing a recipe of the same name.
    pub fn insert(&mut self, r: Recipe)
        ensures
            final(self)@ == insert_recipe(old(self)@, r@),
    {
        proof {
            use_type_invariant(&*self);
        }
        let ghost book = self@;
        let ghost p = name_is(r@.name);
        let mut j: usize = 0;
        while j < self.recipes.len()
            invariant
                j <= self.recipes.len(),
                book == recipes_view(self.recipes@),
                distinct_names(book),
                self.recipes@ == old(self).recipes@,
                p == name_is(r@.name),
                forall|m: int| 0 <= m < j ==> !p(book[m]),
            decreases self.recipes.len() - j,
        {
            if self.recipes[j].name == r.name {
                proof {
                    assert(p(book[j as int]));
                    lemma_first_index_at(book, p, j as int);
                    lemma_insert_recipe_distinct(book, r@);
                }
                let mut recipes: Vec<Recipe> = Vec::new();
                std::mem::swap(&mut recipes, &mut self.recipes);
                recipes.set(j, r);
                assert(recipes_view(recipes@) =~= book.update(j as int, r@));
                self.recipes = recipes;
                return ;
            }
            j = j + 1;
        }
        proof {
            lemma_first_index_at(book, p, book.len() as int);
            lemma_insert_recipe_distinct(book, r@);
        }
        let mut recipes: Vec<Recipe> = Vec::new();
                std::mem::swap(&mut recipes, &mut self.recipes);
        recipes.push(r);
        assert(recipes_view(recipes@) =~= book.push(r@));
        self.recipes = recipes;
    }

    /// The recipe named `name`, if the book has one.
    pub fn get(&self, name: &String) -> (res: Option<&Recipe>)
        ensures
            first_index(self@, name_is(name@)) < 0 <==> res is None,
            res matches Some(r) ==> r@ == self@[first_index(self@, name_is(name@))],
            distinct_names(self@),
    {
        proof {
            use_type_invariant(self);
        }
        let ghost book = self@;
        let ghost p = name_is(name@);
        let mut j: usize = 0;
        while j < self.recipes.len()
            invariant
                j <= self.recipes.len(),
                book == recipes_view(self.recipes@),
                distinct_names(book),
                p == name_is(name@),
                forall|m: int| 0 <= m < j ==> !p(book[m]),
            decreases self.recipes.len() - j,
        {
            if self.recipes[j].name == *name {
                proof {
                    assert(p(book[j as int]));
                    lemma_first_index_at(book, p, j as int);
                }
                return Some(&self.recipes[j]);
            }
            j = j + 1;
        }
        proof {
            lemma_first_index_at(book, p, book.len() as int);
        }
        None
    }

    /// How many recipes the book holds.
    pub fn len(&self) -> (res: usize)
        ensures
            res == self@.len(),
    {
        self.recipes.len()
    }

    /// The recipes, in the order the book keeps them.
    pub fn recipes(&self) -> (res: &[Recipe])
        ensures
            recipes_view(res@) == self@,
            distinct_names(self@),
    {
        proof {
            use_type_invariant(self);
        }
        self.recipes.as_slice()
    }

    /// The names of the recipes, in the order the book keeps them.
    pub fn names(&self) -> (res: Vec<String>)
        ensures
            res@.len() == self@.len(),
            forall|i: int| 0 <= i < res@.len() ==> #[trigger] res@[i]@ == self@[i].name,
    {
        let mut res: Vec<String> = Vec::new();
        let mut i: usize = 0;
        while i < self.recipes.len()
            invariant
                i <= self.recipes.len(),
                res@.len() == i,
                forall|k: int| 0 <= k < i ==> #[trigger] res@[k]@ == self@[k].name,
            decreases self.recipes.len() - i,
        {
            res.push(self.recipes[i].name.clone());
            i = i + 1;
        }
        res
    }
}

/// The recipes of a recipe file's text (the computing part of `load_recipes`):
/// blocks separated by an empty line, blank blocks skipped, a later recipe
/// replacing an earlier one of the same name; the first block that does not
/// parse gives the error.
pub fn parse_recipes(content: &str) -> (res: Result<RecipeBook, String>)
    ensures
        match res {
            Ok(b) => parse_recipe_file(content@) == Ok::<Seq<RecipeModel>, Seq<char>>(b@),
            Err(e) => parse_recipe_file(content@) == Err::<Seq<RecipeModel>, Seq<char>>(e@),
        },
{
    let cs = chars_of(content);
    let sep: Vec<char> = vec!['\n', '\n'];
    assert(sep@ == blank_line());
    let blocks = split_pattern(cs.as_slice(), sep.as_slice());
    let ghost all = blocks.deep_view();
    let mut book = RecipeBook::new();
    let mut i: usize = 0;
    assert(all.skip(0) == all);
    while i < blocks.len()
        invariant
            i <= blocks.len(),
            all == blocks.deep_view(),
            all == split_pat(content@, blank_line()),
            parse_recipe_file(content@) == load_blocks(all.skip(i as int), book@),
        decreases blocks.len() - i,
    {
        let block = blocks[i].as_slice();
        assert(block@ == all[i as int]);
        let ghost rest = all.skip(i as int);
        assert(rest[0] == all[i as int]);
        assert(rest.drop_first() == all.skip(i + 1));
        let t = trim_chars(block);
        if t.len() > 0 {
            match parse_recipe_chars(t.as_slice()) {
                Err(e) => {
                    return Err(e);
                },
                Ok(r) => {
                    book.insert(r);
                },
            }
        }
        i = i + 1;
    }
    assert(all.skip(i as int).len() == 0);
    Ok(book)
}

impl Action {
    /// A copy of the action.
    pub fn deep_clone(&self) -> (res: Action)
        ensures
            res@ == self@,
    {
        let mut params: Vec<(String, String)> = Vec::new();
        let mut i: usize = 0;
        while i < self.params.len()
            invariant
                i <= self.params.len(),
                params@.len() == i,
                forall|k: int|
                    0 <= k < i ==> (#[trigger] params@[k]).0@ == self.params@[k].0@ && params@[k].1@
                        == self.params@[k].1@,
            decreases self.params.len() - i,
        {
            params.push((self.params[i].0.clone(), self.params[i].1.clone()));
            i = i + 1;
        }
        assert(params_view(params@) =~= params_view(self.params@));
        Action { name: self.name.clone(), params, repeat: self.repeat }
    }
}

/// An action repeated as many times as it says.
pub open spec fn repeat_action(a: ActionModel) -> Seq<ActionModel> {
    Seq::new(a.repeat as nat, |_i: int| a)
}

/// The actions of `v`, each repeated as many times as it says, in order.
pub open spec fn flatten_actions_seq(v: Seq<ActionModel>) -> Seq<ActionModel>
    decreases v.len(),
{
    if v.len() == 0 {
        seq![]
    } else {
        flatten_actions_seq(v.drop_last()) + repeat_action(v.last())
    }
}

/// The actions of a step: a single action, or those of a parallel group in order.
pub open spec fn flatten_step(s: StepModel) -> Seq<ActionModel> {
    match s {
        StepModel::Single(a) => repeat_action(a),
        StepModel::Parallel(v) => flatten_actions_seq(v),
    }
}

/// The actions of the steps, in order.
pub open spec fn flatten_steps(steps: Seq<StepModel>) -> Seq<ActionModel>
    decreases steps.len(),
{
    if steps.len() == 0 {
        seq![]
    } else {
        flatten_steps(steps.drop_last()) + flatten_step(steps.last())
    }
}

proof fn lemma_flatten_concat(a: Seq<ActionModel>, b: Seq<ActionModel>)
    ensures
        flatten_actions_seq(a + b) == flatten_actions_seq(a) + flatten_actions_seq(b),
    decreases b.len(),
{
    if b.len() == 0 {
        assert(a + b =~= a);
        assert(flatten_actions_seq(a) + seq![] =~= flatten_actions_seq(a));
    } else {
        lemma_flatten_concat(a, b.drop_last());
        assert((a + b).drop_last() =~= a + b.drop_last());
        assert((a + b).last() == b.last());
        assert(flatten_actions_seq(a + b) =~= flatten_actions_seq(a) + flatten_actions_seq(b));
    }
}

/// In a parallel group, each action is done as many times as it says, at
/// its place: the actions of the group are those before it, then `n`
/// copies of the action for its repetition count `n`, then those after it.
pub proof fn lemma_group_repeats(v: Seq<ActionModel>, i: int)
    requires
        0 <= i < v.len(),
    ensures
        flatten_actions_seq(v) == flatten_actions_seq(v.take(i)) + Seq::new(
            v[i].repeat as nat,
            |_k: int| v[i],
        ) + flatten_actions_seq(v.skip(i + 1)),
{
    assert(v =~= v.take(i) + seq![v[i]] + v.skip(i + 1));
    lemma_flatten_concat(v.take(i) + seq![v[i]], v.skip(i + 1));
    lemma_flatten_concat(v.take(i), seq![v[i]]);
    let one = seq![v[i]];
    assert(one.drop_last() =~= Seq::<ActionModel>::empty());
    assert(one.last() == v[i]);
    assert(flatten_actions_seq(one.drop_last()) == Seq::<ActionModel>::empty());
    assert(flatten_actions_seq(one) == flatten_actions_seq(one.drop_last()) + repeat_action(v[i]));
    assert(flatten_actions_seq(one) =~= Seq::new(v[i].repeat as nat, |_k: int| v[i]));
}

proof fn lemma_steps_concat(a: Seq<StepModel>, b: Seq<StepModel>)
    ensures
        flatten_steps(a + b) == flatten_steps(a) + flatten_steps(b),
    decreases b.len(),
{
    if b.len() == 0 {
        assert(a + b =~= a);
        assert(flatten_steps(a) + seq![] =~= flatten_steps(a));
    } else {
        lemma_steps_concat(a, b.drop_last());
        assert((a + b).drop_last() =~= a + b.drop_last());
        assert((a + b).last() == b.last());
        assert(flatten_steps(a + b) =~= flatten_steps(a) + flatten_steps(b));
    }
}

/// A recipe's actions are its steps' actions in order: those of the steps
/// before a step, then the step's own (a single action as many times as it
/// says, a parallel group's actions in order, each as many times as it
/// says), then those of the steps after it.
pub proof fn lemma_steps_in_order(steps: Seq<StepModel>, i: int)
    requires
        0 <= i < steps.len(),
    ensures
        flatten_steps(steps) == flatten_steps(steps.take(i)) + match steps[i] {
            StepModel::Single(a) => Seq::new(a.repeat as nat, |_k: int| a),
            StepModel::Parallel(v) => flatten_actions_seq(v),
        } + flatten_steps(steps.skip(i + 1)),
{
    assert(steps =~= steps.take(i) + seq![steps[i]] + steps.skip(i + 1));
    lemma_steps_concat(steps.take(i) + seq![steps[i]], steps.skip(i + 1));
    lemma_steps_concat(steps.take(i), seq![steps[i]]);
    let one = seq![steps[i]];
    assert(one.drop_last() =~= Seq::<StepModel>::empty());
    assert(one.last() == steps[i]);
    assert(flatten_steps(one.drop_last()) == Seq::<ActionModel>::empty());
    assert(flatten_steps(one) == flatten_steps(one.drop_last()) + flatten_step(steps[i]));
    let own = match steps[i] {
        StepModel::Single(a) => Seq::new(a.repeat as nat, |_k: int| a),
        StepModel::Parallel(v) => flatten_actions_seq(v),
    };
    assert(flatten_steps(seq![steps[i]]) =~= own);
}

/// Appends `a` as many times as it says.
fn push_repeated(out: &mut Vec<Action>, a: &Action)
    ensures
        actions_view(final(out)@) == actions_view(old(out)@) + repeat_action(a@),
{
    let ghost start = actions_view(out@);
    let mut k: u32 = 0;
    while k < a.repeat
        invariant
            k <= a.repeat,
            actions_view(out@) == start + Seq::new(k as nat, |_i: int| a@),
        decreases a.repeat - k,
    {
        let ghost before = actions_view(out@);
        out.push(a.deep_clone());
        assert(actions_view(out@) =~= before.push(a@));
        k = k + 1;
        assert(start + Seq::new(k as nat, |_i: int| a@) =~= before.push(a@));
    }
}

/// The actions of `v`, each repeated as many times as it says, appended to `out`.
fn push_actions(out: &mut Vec<Action>, v: &Vec<Action>)
    ensures
        actions_view(final(out)@) == actions_view(old(out)@) + flatten_actions_seq(actions_view(v@)),
{
    let ghost start = actions_view(out@);
    let ghost all = actions_view(v@);
    let mut i: usize = 0;
    while i < v.len()
        invariant
            i <= v.len(),
            all == actions_view(v@),
            actions_view(out@) == start + flatten_actions_seq(all.take(i as int)),
        decreases v.len() - i,
    {
        push_repeated(out, &v[i]);
        assert(all.take(i + 1).drop_last() =~= all.take(i as int));
        assert(all.take(i + 1).last() == v@[i as int]@);
        i = i + 1;
    }
    assert(all.take(v.len() as int) =~= all);
}

/// The actions that making the recipe takes, in order: the steps one after
/// the other, a parallel group's actions in the order written, each action
/// as many times as its repetition count says.
pub fn flatten_actions(r: &Recipe) -> (res: Vec<Action>)
    ensures
        actions_view(res@) == flatten_steps(r@.steps),
{
    let mut out: Vec<Action> = Vec::new();
    let ghost all = r@.steps;
    let mut i: usize = 0;
    assert(actions_view(out@) =~= seq![]);
    while i < r.steps.len()
        invariant
            i <= r.steps.len(),
            all == r@.steps,
            actions_view(out@) == flatten_steps(all.take(i as int)),
        decreases r.steps.len() - i,
    {
        match &r.steps[i] {
            Step::Single(a) => push_repeated(&mut out, a),
            Step::Parallel(v) => push_actions(&mut out, v),
        }
        assert(all.take(i + 1).drop_last() =~= all.take(i as int));
        assert(all.take(i + 1).last() == r.steps@[i as int]@);
        i = i + 1;
    }
    assert(all.take(r.steps.len() as int) =~= all);
    out
}

/// The pieces joined, with `sep` between each two.
pub open spec fn join(parts: Seq<Seq<char>>, sep: Seq<char>) -> Seq<char>
    decreases parts.len(),
{
    if parts.len() == 0 {
        seq![]
    } else if parts.len() == 1 {
        parts[0]
    } else {
        join(parts.drop_last(), sep) + sep + parts.last()
    }
}

pub open spec fn comma_sep() -> Seq<char> {
    seq![',', ' ']
}

pub open spec fn arrow_sep() -> Seq<char> {
    seq![' ', '-', '>', ' ']
}

/// `key=value`.
pub open spec fn param_text(p: (Seq<char>, Seq<char>)) -> Seq<char> {
    p.0 + seq!['='] + p.1
}

/// An action as written in a recipe: its name, its parameters in
/// parentheses when it has any, and `^n` when it is repeated `n != 1` times.
pub open spec fn action_formula(a: ActionModel) -> Seq<char> {
    a.name + (if a.params.len() == 0 {
        seq![]
    } else {
        seq!['('] + join(a.params.map_values(|p: (Seq<char>, Seq<char>)| param_text(p)), comma_sep())
            + seq![')']
    }) + (if a.repeat == 1 {
        seq![]
    } else {
        seq!['^'] + decimal(a.repeat as nat)
    })
}

/// A step as written in a recipe; a parallel group in square brackets.
pub open spec fn step_formula(s: StepModel) -> Seq<char> {
    match s {
        StepModel::Single(a) => action_formula(a),
        StepModel::Parallel(v) => seq!['['] + join(
            v.map_values(|a: ActionModel| action_formula(a)),
            comma_sep(),
        ) + seq![']'],
    }
}

/// The steps of a recipe as written, separated by ` -> `.
pub open spec fn recipe_formula(r: RecipeModel) -> Seq<char> {
    join(r.steps.map_values(|s: StepModel| step_formula(s)), arrow_sep())
}

/// The pieces joined, with `sep` between each two.
#[verifier::loop_isolation(false)]
fn join_chars(parts: &Vec<Vec<char>>, sep: &[char]) -> (res: Vec<char>)
    ensures
        res@ == join(parts.deep_view(), sep@),
{
    let ghost all = parts.deep_view();
    let mut out: Vec<char> = Vec::new();
    let mut i: usize = 0;
    while i < parts.len()
        invariant
            i <= parts.len(),
            all == parts.deep_view(),
            out@ == join(all.take(i as int), sep@),
        decreases parts.len() - i,
    {
        assert(all.take(i + 1).drop_last() =~= all.take(i as int));
        assert(all[i as int] == parts@[i as int]@);
        if i > 0 {
            let mut k: usize = 0;
            let ghost before = out@;
            while k < sep.len()
                invariant
                    k <= sep.len(),
                    out@ == before + sep@.take(k as int),
                decreases sep.len() - k,
            {
                out.push(sep[k]);
                k = k + 1;
                assert(sep@.take(k as int) =~= sep@.take(k - 1).push(sep@[k - 1]));
            }
            assert(sep@.take(sep.len() as int) =~= sep@);
        }
        let ghost mid = out@;
        let mut k: usize = 0;
        while k < parts[i].len()
            invariant
                k <= parts@[i as int].len(),
                out@ == mid + parts@[i as int]@.take(k as int),
            decreases parts@[i as int].len() - k,
        {
            out.push(parts[i][k]);
            k = k + 1;
            assert(parts@[i as int]@.take(k as int) =~= parts@[i as int]@.take(k - 1).push(
                parts@[i as int]@[k - 1],
            ));
        }
        assert(parts@[i as int]@.take(parts@[i as int]@.len() as int) =~= parts@[i as int]@);
        proof {
            if i == 0 {
                assert(out@ =~= all[0]);
                assert(all.take(1) =~= seq![all[0]]);
            }
        }
        i = i + 1;
    }
    assert(all.take(parts.len() as int) =~= all);
    out
}

fn chars_of_string(s: &String) -> (res: Vec<char>)
    ensures
        res@ == s@,
{
    chars_of(s.as_str())
}

/// The characters of `a` then of `b`.
fn append_chars(a: &mut Vec<char>, b: &[char])
    ensures
        final(a)@ == old(a)@ + b@,
{
    let ghost start = a@;
    let mut k: usize = 0;
    while k < b.len()
        invariant
            k <= b.len(),
            a@ == start + b@.take(k as int),
        decreases b.len() - k,
    {
        a.push(b[k]);
        k = k + 1;
        assert(b@.take(k as int) =~= b@.take(k - 1).push(b@[k - 1]));
    }
    assert(b@.take(b.len() as int) =~= b@);
}

/// `action_formula` as characters.
fn action_formula_chars(a: &Action) -> (res: Vec<char>)
    ensures
        res@ == action_formula(a@),
{
    let mut out = chars_of_string(&a.name);
    let ghost pv = params_view(a.params@);
    if a.params.len() > 0 {
        let mut parts: Vec<Vec<char>> = Vec::new();
        let mut i: usize = 0;
        while i < a.params.len()
            invariant
                i <= a.params.len(),
                pv == params_view(a.params@),
                parts@.len() == i,
                forall|k: int| 0 <= k < i ==> (#[trigger] parts@[k]).deep_view() == param_text(pv[k]),
            decreases a.params.len() - i,
        {
            let mut t = chars_of_string(&a.params[i].0);
            t.push('=');
            append_chars(&mut t, chars_of_string(&a.params[i].1).as_slice());
            assert(t.deep_view() =~= t@);
            parts.push(t);
            i = i + 1;
        }
        assert(parts.deep_view() =~= pv.map_values(|p: (Seq<char>, Seq<char>)| param_text(p)));
        let sep: Vec<char> = vec![',', ' '];
        let joined = join_chars(&parts, sep.as_slice());
        out.push('(');
        append_chars(&mut out, joined.as_slice());
        out.push(')');
    }
    if a.repeat != 1 {
        out.push('^');
        let digits = decimal_u128(a.repeat as u128);
        append_chars(&mut out, digits.as_slice());
    }
    out
}

/// `step_formula` as characters.
fn step_formula_chars(s: &Step) -> (res: Vec<char>)
    ensures
        res@ == step_formula(s@),
{
    match s {
        Step::Single(a) => action_formula_chars(a),
        Step::Parallel(v) => {
            let ghost av = actions_view(v@);
            let mut parts: Vec<Vec<char>> = Vec::new();
            let mut i: usize = 0;
            while i < v.len()
                invariant
                    i <= v.len(),
                    av == actions_view(v@),
                    parts@.len() == i,
                    forall|k: int| 0 <= k < i ==> (#[trigger] parts@[k]).deep_view() == action_formula(av[k]),
                decreases v.len() - i,
            {
                let t = action_formula_chars(&v[i]);
                assert(t.deep_view() =~= t@);
                parts.push(t);
                i = i + 1;
            }
            assert(parts.deep_view() =~= av.map_values(|a: ActionModel| action_formula(a)));
            let sep: Vec<char> = vec![',', ' '];
            let joined = join_chars(&parts, sep.as_slice());
            let mut out: Vec<char> = vec!['['];
            append_chars(&mut out, joined.as_slice());
            out.push(']');
            out
        },
    }
}

/// The steps of a recipe as written in a recipe file, such as
/// `MakeDough -> AddBase(base_type=tomato) -> [AddCheese(amount=2), AddBasil(leaves=3)]`.
pub fn recipe_to_formula(r: &Recipe) -> (res: String)
    ensures
        res@ == recipe_formula(r@),
{
    let ghost sv = steps_view(r.steps@);
    let mut parts: Vec<Vec<char>> = Vec::new();
    let mut i: usize = 0;
    while i < r.steps.len()
        invariant
            i <= r.steps.len(),
            sv == steps_view(r.steps@),
            parts@.len() == i,
            forall|k: int| 0 <= k < i ==> (#[trigger] parts@[k]).deep_view() == step_formula(sv[k]),
        decreases r.steps.len() - i,
    {
        let t = step_formula_chars(&r.steps[i]);
        assert(t.deep_view() =~= t@);
        parts.push(t);
        i = i + 1;
    }
    assert(parts.deep_view() =~= sv.map_values(|s: StepModel| step_formula(s)));
    let sep: Vec<char> = vec![' ', '-', '>', ' '];
    let joined = join_chars(&parts, sep.as_slice());
    string_of(joined.as_slice())
}

} // verus!
