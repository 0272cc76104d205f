use vstd::prelude::*;

use crate::condition::{
    CompareableData, Comparison, CondView, Condition, OperandView, Predicate, PredicateView,
};
use crate::node::{
    opt_view, strings_view, SceneNodeData, SceneNodeLoad, SceneNodeUser, UserView,
};
use crate::text::{
    char_seqs, chars_of, int_of, parse_int, split, split_chars, string_of, trim, trim_start,
    trimmed, trimmed_start, words, words_of,
};
use crate::tree::{Statement, StmtView};

verus! {

/// Why a line of script could not be read.
#[derive(Debug, Clone, Copy, PartialEq, Eq, Structural)]
pub enum LineError {
    /// The line has no recognised form.
    UnknownSyntax,
    /// An `if` or `elseif` line does not hold `<operand> <op> <operand>`.
    BadCondition,
    /// A `load` block is malformed, names an unknown property, or is cut
    /// short by a line that is neither a property nor its closing `}`.
    BadLoad,
    /// A directive has the wrong number or kind of arguments.
    BadArguments,
    /// A `load` block is still open at the end of the script.
    UnclosedLoad,
}

pub open spec fn is_keyword(w: Seq<char>) -> bool {
    w == "if"@ || w == "elseif"@ || w == "else"@ || w == "end"@ || w == "jump"@ || w == "load"@
        || w == "set"@ || w == "scene"@ || w == "play"@ || w == "remove"@
}

/// A literal integer where the word spells one, else a variable's name.
pub open spec fn operand_of(w: Seq<char>) -> OperandView {
    match int_of(w) {
        Some(n) => OperandView::Number(n),
        None => OperandView::Variable(w),
    }
}

pub open spec fn comparison_of(w: Seq<char>) -> Option<Comparison> {
    if w == "="@ {
        Some(Comparison::Equals)
    } else if w == "!="@ {
        Some(Comparison::NotEquals)
    } else if w == ">"@ {
        Some(Comparison::MoreThan)
    } else if w == "<"@ {
        Some(Comparison::LessThan)
    } else {
        None
    }
}

/// The condition written by the words after `if` or `elseif`: a single
/// variable name tests whether it is set; otherwise `<operand> <op> <operand>`.
pub open spec fn condition_of(args: Seq<Seq<char>>) -> Result<CondView, LineError> {
    if args.len() == 1 {
        Ok(CondView { predicate: PredicateView::IsSet(args[0]), negated: false })
    } else if args.len() == 3 && comparison_of(args[1]) is Some {
        Ok(
            CondView {
                predicate: PredicateView::Compare {
                    first: operand_of(args[0]),
                    compare: comparison_of(args[1])->Some_0,
                    second: operand_of(args[2]),
                },
                negated: false,
            },
        )
    } else {
        Err(LineError::BadCondition)
    }
}

pub open spec fn is_property(w: Seq<char>) -> bool {
    w == "expression"@ || w == "placement"@
}

/// The words are pairs of a known property and its value.
pub open spec fn properties_ok(ps: Seq<Seq<char>>) -> bool
    decreases ps.len(),
{
    if ps.len() == 0 {
        true
    } else if ps.len() == 1 {
        false
    } else {
        is_property(ps[ps.len() - 2]) && properties_ok(ps.take(ps.len() - 2))
    }
}

/// The value of the last pair whose property is `key`.
pub open spec fn property(ps: Seq<Seq<char>>, key: Seq<char>) -> Option<Seq<char>>
    decreases ps.len(),
{
    if ps.len() < 2 {
        None
    } else if ps[ps.len() - 2] == key {
        Some(ps.last())
    } else {
        property(ps.take(ps.len() - 2), key)
    }
}

/// `load <character> { <property> <value> ... }`, as words.
pub open spec fn load_of(ws: Seq<Seq<char>>) -> Result<UserView, LineError> {
    if ws.len() >= 4 && ws[2] == "{"@ && ws.last() == "}"@ && properties_ok(
        ws.subrange(3, ws.len() - 1),
    ) {
        let ps = ws.subrange(3, ws.len() - 1);
        Ok(
            UserView::Character {
                character: ws[1],
                expression: property(ps, "expression"@),
                placement: property(ps, "placement"@),
            },
        )
    } else {
        Err(LineError::BadLoad)
    }
}

pub open spec fn node_stmt(r: Result<UserView, LineError>) -> Result<StmtView, LineError> {
    match r {
        Ok(u) => Ok(StmtView::Node(u)),
        Err(e) => Err(e),
    }
}

/// A line whose first word is a directive.
pub open spec fn keyword_stmt(ws: Seq<Seq<char>>) -> Result<StmtView, LineError> {
    let k = ws[0];
    if k == "if"@ || k == "elseif"@ {
        match condition_of(ws.drop_first()) {
            Ok(c) => Ok(
                if k == "if"@ {
                    StmtView::If(c)
                } else {
                    StmtView::ElseIf(c)
                },
            ),
            Err(e) => Err(e),
        }
    } else if k == "load"@ {
        node_stmt(load_of(ws))
    } else if k == "else"@ && ws.len() == 1 {
        Ok(StmtView::Else)
    } else if k == "end"@ && ws.len() == 1 {
        Ok(StmtView::End)
    } else if k == "jump"@ && ws.len() == 2 {
        Ok(StmtView::Jump(ws[1]))
    } else if k == "set"@ && ws.len() == 4 && is_property(ws[2]) {
        Ok(
            StmtView::Node(
                UserView::Character {
                    character: ws[1],
                    expression: if ws[2] == "expression"@ {
                        Some(ws[3])
                    } else {
                        None
                    },
                    placement: if ws[2] == "placement"@ {
                        Some(ws[3])
                    } else {
                        None
                    },
                },
            ),
        )
    } else if k == "scene"@ && ws.len() == 2 {
        Ok(StmtView::Node(UserView::Background { name: ws[1] }))
    } else if k == "play"@ && ws.len() == 2 {
        Ok(StmtView::Node(UserView::PlaySound { name: ws[1], channel: None }))
    } else if k == "play"@ && ws.len() == 3 {
        Ok(StmtView::Node(UserView::PlaySound { name: ws[1], channel: Some(ws[2]) }))
    } else if k == "play"@ && ws.len() == 4 && ws[2] == "on"@ {
        Ok(StmtView::Node(UserView::PlaySound { name: ws[1], channel: Some(ws[3]) }))
    } else if k == "remove"@ && ws.len() == 2 {
        Ok(StmtView::Node(UserView::RemoveCharacter { name: ws[1] }))
    } else {
        Err(LineError::BadArguments)
    }
}

/// Position of the first `c` in `s`.
pub open spec fn find_char(s: Seq<char>, c: char) -> Option<nat>
    decreases s.len(),
{
    if s.len() == 0 {
        None
    } else {
        match find_char(s.drop_last(), c) {
            Some(i) => Some(i),
            None => if s.last() == c {
                Some((s.len() - 1) as nat)
            } else {
                None
            },
        }
    }
}

/// No speaker is written as `_` or left empty.
pub open spec fn speaker_of(s: Seq<char>) -> Option<Seq<char>> {
    if s.len() == 0 || s == "_"@ {
        None
    } else {
        Some(s)
    }
}

/// The statement on a trimmed, non-empty line.
pub open spec fn line_stmt(t: Seq<char>) -> Result<StmtView, LineError> {
    let ws = words(t);
    if ws.len() == 0 {
        Err(LineError::UnknownSyntax)
    } else if is_keyword(ws[0]) {
        keyword_stmt(ws)
    } else if t.len() >= 2 && t[0] == '[' && t.last() == ']' {
        Ok(
            StmtView::Node(
                UserView::Choice(split(t.subrange(1, t.len() - 1), '/').map_values(|o| trim(o))),
            ),
        )
    } else {
        match find_char(t, ':') {
            Some(i) => Ok(
                StmtView::Node(
                    UserView::Text {
                        speaker: speaker_of(trim(t.take(i as int))),
                        content: trim_start(t.skip((i + 1) as int)),
                    },
                ),
            ),
            None => Err(LineError::UnknownSyntax),
        }
    }
}

pub open spec fn stmt_result(r: Result<Statement, LineError>) -> Result<StmtView, LineError> {
    match r {
        Ok(st) => Ok(st@),
        Err(e) => Err(e),
    }
}

/// Whether the characters of `w` are those of `k`.
fn word_is(w: &Vec<char>, k: &str) -> (r: bool)
    ensures
        r == (w@ == k@),
{
    let kc = chars_of(k);
    if w.len() != kc.len() {
        return false;
    }
    let mut i: usize = 0;
    while i < w.len()
        invariant
            i <= w@.len(),
            w@.len() == kc@.len(),
            kc@ == k@,
            forall|j: int| 0 <= j < i ==> w@[j] == kc@[j],
        decreases w.len() - i,
    {
        if w[i] != kc[i] {
            assert(w@[i as int] != kc@[i as int]);
            assert(w@ != kc@);
            return false;
        }
        i = i + 1;
    }
    assert(w@ =~= kc@);
    true
}

fn keyword(w: &Vec<char>) -> (r: bool)
    ensures
        r == is_keyword(w@),
{
    word_is(w, "if") || word_is(w, "elseif") || word_is(w, "else") || word_is(w, "end")
        || word_is(w, "jump") || word_is(w, "load") || word_is(w, "set") || word_is(w, "scene")
        || word_is(w, "play") || word_is(w, "remove")
}

fn operand_from(w: &Vec<char>) -> (r: CompareableData)
    ensures
        r@ == operand_of(w@),
{
    match parse_int(w) {
        Some(n) => CompareableData::Number(n),
        None => CompareableData::Variable(string_of(w)),
    }
}

fn comparison_from(w: &Vec<char>) -> (r: Option<Comparison>)
    ensures
        r == comparison_of(w@),
{
    if word_is(w, "=") {
        Some(Comparison::Equals)
    } else if word_is(w, "!=") {
        Some(Comparison::NotEquals)
    } else if word_is(w, ">") {
        Some(Comparison::MoreThan)
    } else if word_is(w, "<") {
        Some(Comparison::LessThan)
    } else {
        None
    }
}

/// The condition written by the words after the first.
fn parse_condition(ws: &Vec<Vec<char>>) -> (r: Result<Condition, LineError>)
    requires
        ws@.len() >= 1,
    ensures
        match r {
            Ok(c) => condition_of(char_seqs(ws@).drop_first()) == Ok::<CondView, LineError>(c@),
            Err(e) => condition_of(char_seqs(ws@).drop_first()) == Err::<CondView, LineError>(e),
        },
{
    let ghost args = char_seqs(ws@).drop_first();
    if ws.len() == 2 {
        assert(args[0] == ws@[1]@);
        return Ok(Condition::is_set(string_of(&ws[1])));
    }
    if ws.len() != 4 {
        return Err(LineError::BadCondition);
    }
    assert(args[0] == ws@[1]@ && args[1] == ws@[2]@ && args[2] == ws@[3]@);
    match comparison_from(&ws[2]) {
        Some(c) => Ok(Condition::compare(operand_from(&ws[1]), c, operand_from(&ws[3]))),
        None => Err(LineError::BadCondition),
    }
}

fn is_property_word(w: &Vec<char>) -> (r: bool)
    ensures
        r == is_property(w@),
{
    word_is(w, "expression") || word_is(w, "placement")
}

/// The value of the last pair for `key` among the words `3 .. n - 1`.
fn find_property(ws: &Vec<Vec<char>>, key: &str) -> (r: Option<String>)
    requires
        ws@.len() >= 4,
    ensures
        opt_view(r) == property(char_seqs(ws@).subrange(3, ws@.len() - 1), key@),
{
    let n = ws.len();
    let ghost all = char_seqs(ws@);
    let mut j: usize = n - 1;
    while j >= 5
        invariant
            3 <= j <= n - 1,
            n == ws@.len(),
            all == char_seqs(ws@),
            property(all.subrange(3, n - 1), key@) == property(all.subrange(3, j as int), key@),
        decreases j,
    {
        let ghost ps = all.subrange(3, j as int);
        assert(ps[ps.len() - 2] == ws@[j - 2]@);
        assert(ps.last() == ws@[j - 1]@);
        assert(ps.take(ps.len() - 2) =~= all.subrange(3, j - 2));
        if word_is(&ws[j - 2], key) {
            return Some(string_of(&ws[j - 1]));
        }
        j = j - 2;
    }
    None
}

/// `load <character> { <property> <value> ... }`, as words.
fn parse_load(ws: &Vec<Vec<char>>) -> (r: Result<SceneNodeUser, LineError>)
    ensures
        match r {
            Ok(u) => load_of(char_seqs(ws@)) == Ok::<UserView, LineError>(u@),
            Err(e) => load_of(char_seqs(ws@)) == Err::<UserView, LineError>(e),
        },
{
    let n = ws.len();
    let ghost all = char_seqs(ws@);
    if n < 4 || !word_is(&ws[2], "{") || !word_is(&ws[n - 1], "}") {
        return Err(LineError::BadLoad);
    }
    assert(all[2] == ws@[2]@ && all.last() == ws@[n - 1]@);
    let mut j: usize = n - 1;
    while j >= 5
        invariant
            3 <= j <= n - 1,
            n == ws@.len(),
            all == char_seqs(ws@),
            properties_ok(all.subrange(3, n - 1)) == properties_ok(all.subrange(3, j as int)),
        decreases j,
    {
        let ghost ps = all.subrange(3, j as int);
        assert(ps[ps.len() - 2] == ws@[j - 2]@);
        assert(ps.take(ps.len() - 2) =~= all.subrange(3, j - 2));
        if !is_property_word(&ws[j - 2]) {
            return Err(LineError::BadLoad);
        }
        j = j - 2;
    }
    if j == 4 {
        return Err(LineError::BadLoad);
    }
    assert(all.subrange(3, j as int).len() == 0);
    assert(all[1] == ws@[1]@);
    Ok(
        SceneNodeUser::Load(
            SceneNodeLoad::Character {
                character: string_of(&ws[1]),
                expression: find_property(ws, "expression"),
                placement: find_property(ws, "placement"),
            },
        ),
    )
}

/// A line whose first word is a directive.
fn keyword_statement(ws: &Vec<Vec<char>>) -> (r: Result<Statement, LineError>)
    requires
        ws@.len() >= 1,
    ensures
        stmt_result(r) == keyword_stmt(char_seqs(ws@)),
{
    let ghost all = char_seqs(ws@);
    let n = ws.len();
    let k = &ws[0];
    assert(all[0] == k@);
    assert(n >= 2 ==> all[1] == ws@[1]@);
    assert(n >= 3 ==> all[2] == ws@[2]@);
    assert(n >= 4 ==> all[3] == ws@[3]@);
    if word_is(k, "if") || word_is(k, "elseif") {
        let is_if = word_is(k, "if");
        match parse_condition(ws) {
            Ok(c) => Ok(
                if is_if {
                    Statement::If(c)
                } else {
                    Statement::ElseIf(c)
                },
            ),
            Err(e) => Err(e),
        }
    } else if word_is(k, "load") {
        match parse_load(ws) {
            Ok(u) => Ok(Statement::Node(u)),
            Err(e) => Err(e),
        }
    } else if word_is(k, "else") && n == 1 {
        Ok(Statement::Else)
    } else if word_is(k, "end") && n == 1 {
        Ok(Statement::End)
    } else if word_is(k, "jump") && n == 2 {
        Ok(Statement::Jump(string_of(&ws[1])))
    } else if word_is(k, "set") && n == 4 && is_property_word(&ws[2]) {
        let is_expression = word_is(&ws[2], "expression");
        proof {
            reveal_strlit("expression");
            reveal_strlit("placement");
        }
        let value = string_of(&ws[3]);
        let (expression, placement) = if is_expression {
            (Some(value), None)
        } else {
            (None, Some(value))
        };
        Ok(
            Statement::Node(
                SceneNodeUser::Load(
                    SceneNodeLoad::Character {
                        character: string_of(&ws[1]),
                        expression,
                        placement,
                    },
                ),
            ),
        )
    } else if word_is(k, "scene") && n == 2 {
        Ok(
            Statement::Node(
                SceneNodeUser::Load(SceneNodeLoad::Background { name: string_of(&ws[1]) }),
            ),
        )
    } else if word_is(k, "play") && (n == 2 || n == 3 || (n == 4 && word_is(&ws[2], "on"))) {
        let channel = if n == 2 {
            None
        } else {
            Some(string_of(&ws[n - 1]))
        };
        Ok(
            Statement::Node(
                SceneNodeUser::Load(SceneNodeLoad::PlaySound { name: string_of(&ws[1]), channel }),
            ),
        )
    } else if word_is(k, "remove") && n == 2 {
        Ok(
            Statement::Node(
                SceneNodeUser::Load(SceneNodeLoad::RemoveCharacter { name: string_of(&ws[1]) }),
            ),
        )
    } else {
        Err(LineError::BadArguments)
    }
}

proof fn lemma_find_prefix(s: Seq<char>, c: char, k: int)
    requires
        0 <= k <= s.len(),
        find_char(s.take(k), c) is Some,
    ensures
        find_char(s, c) == find_char(s.take(k), c),
    decreases s.len() - k,
{
    if k == s.len() {
        assert(s.take(k) =~= s);
    } else {
        assert(s.drop_last().take(k) =~= s.take(k));
        lemma_find_prefix(s.drop_last(), c, k);
    }
}

/// Position of the first `c` in `t`.
fn find_in(t: &Vec<char>, c: char) -> (r: Option<usize>)
    ensures
        match r {
            Some(i) => find_char(t@, c) == Some(i as nat) && i < t@.len(),
            None => find_char(t@, c) is None,
        },
{
    let mut i: usize = 0;
    assert(t@.take(0) =~= Seq::<char>::empty());
    while i < t.len()
        invariant
            i <= t@.len(),
            find_char(t@.take(i as int), c) is None,
        decreases t.len() - i,
    {
        assert(t@.take(i + 1).drop_last() =~= t@.take(i as int));
        if t[i] == c {
            proof {
                lemma_find_prefix(t@, c, i + 1);
            }
            return Some(i);
        }
        i = i + 1;
    }
    assert(t@.take(i as int) =~= t@);
    None
}

/// The options of a choice line `[a / b / ...]`.
fn parse_options(t: &Vec<char>) -> (r: Vec<String>)
    requires
        t@.len() >= 2,
    ensures
        strings_view(r@) == split(t@.subrange(1, t@.len() - 1), '/').map_values(|o| trim(o)),
{
    let mut inner: Vec<char> = Vec::new();
    let mut j: usize = 1;
    while j < t.len() - 1
        invariant
            1 <= j <= t@.len() - 1,
            inner@ == t@.subrange(1, j as int),
        decreases t.len() - 1 - j,
    {
        inner.push(t[j]);
        j = j + 1;
        assert(inner@ =~= t@.subrange(1, j as int));
    }
    let pieces = split_chars(&inner, '/');
    let ghost ps = split(inner@, '/');
    let mut out: Vec<String> = Vec::new();
    let mut i: usize = 0;
    while i < pieces.len()
        invariant
            i <= pieces@.len(),
            char_seqs(pieces@) == ps,
            out@.len() == i,
            forall|m: int| 0 <= m < i ==> out@[m]@ == trim(ps[m]),
        decreases pieces.len() - i,
    {
        assert(ps[i as int] == pieces@[i as int]@);
        let piece = trimmed(&pieces[i]);
        out.push(string_of(&piece));
        i = i + 1;
    }
    assert(strings_view(out@) =~= ps.map_values(|o| trim(o)));
    out
}

/// The statement on a trimmed, non-empty line.
pub fn parse_line(t: &Vec<char>) -> (r: Result<Statement, LineError>)
    ensures
        stmt_result(r) == line_stmt(t@),
{
    let ws = words_of(t);
    if ws.len() == 0 {
        return Err(LineError::UnknownSyntax);
    }
    assert(char_seqs(ws@)[0] == ws@[0]@);
    if keyword(&ws[0]) {
        return keyword_statement(&ws);
    }
    let n = t.len();
    if n >= 2 && t[0] == '[' && t[n - 1] == ']' {
        return Ok(
            Statement::Node(SceneNodeUser::Data(SceneNodeData::Choice(parse_options(t)))),
        );
    }
    match find_in(t, ':') {
        Some(i) => {
            let mut head: Vec<char> = Vec::new();
            let mut j: usize = 0;
            while j < i
                invariant
                    j <= i,
                    i < t@.len(),
                    head@ == t@.take(j as int),
                decreases i - j,
            {
                head.push(t[j]);
                j = j + 1;
                assert(head@ =~= t@.take(j as int));
            }
            let speaker_chars = trimmed(&head);
            let anonymous = speaker_chars.len() == 0 || word_is(&speaker_chars, "_");
            let speaker = if anonymous {
                None
            } else {
                Some(string_of(&speaker_chars))
            };
            let content = string_of(&trimmed_start(t, i + 1));
            Ok(Statement::Node(SceneNodeUser::Data(SceneNodeData::Text { speaker, content })))
        },
        None => Err(LineError::UnknownSyntax),
    }
}

/// A `load` line that opens a block written over the following lines.
pub open spec fn load_opens(ws: Seq<Seq<char>>) -> bool {
    ws.len() > 0 && ws[0] == "load"@ && ws.last() == "{"@
}

/// A `<property> <value>` line inside a `load` block.
pub open spec fn property_line(ws: Seq<Seq<char>>) -> bool {
    ws.len() == 2 && is_property(ws[0])
}

/// The `}` line that closes a `load` block.
pub open spec fn block_end(ws: Seq<Seq<char>>) -> bool {
    ws.len() == 1 && ws[0] == "}"@
}

/// What the lines from the `k`-th on read as, each with its line number
/// counted from one. `pending` holds an open `load` block: the number of its
/// `load` line and its words so far. Inside a block only property lines,
/// blank lines and the closing `}` are taken; any other line ends the block
/// with an error at its `load` line and is then read on its own.
pub open spec fn script_items(
    lines: Seq<Seq<char>>,
    k: nat,
    pending: Option<(nat, Seq<Seq<char>>)>,
) -> Seq<(nat, Result<StmtView, LineError>)>
    decreases lines.len() - k, if pending is Some {
        1nat
    } else {
        0nat
    },
{
    if k >= lines.len() {
        match pending {
            None => Seq::empty(),
            Some(p) => seq![(p.0, Err(LineError::UnclosedLoad))],
        }
    } else {
        let t = trim(lines[k as int]);
        let ws = words(t);
        match pending {
            Some(p) => if t.len() == 0 {
                script_items(lines, k + 1, Some(p))
            } else if property_line(ws) {
                script_items(lines, k + 1, Some((p.0, p.1 + ws)))
            } else if block_end(ws) {
                seq![(p.0, node_stmt(load_of(p.1 + ws)))] + script_items(lines, k + 1, None)
            } else {
                seq![(p.0, Err(LineError::BadLoad))] + script_items(lines, k, None)
            },
            None => if t.len() == 0 {
                script_items(lines, k + 1, None)
            } else if load_opens(ws) {
                script_items(lines, k + 1, Some(((k + 1) as nat, ws)))
            } else {
                seq![((k + 1) as nat, line_stmt(t))] + script_items(lines, k + 1, None)
            },
        }
    }
}

pub open spec fn errors_of(items: Seq<(nat, Result<StmtView, LineError>)>) -> Seq<(nat, LineError)>
    decreases items.len(),
{
    if items.len() == 0 {
        Seq::empty()
    } else {
        let e = errors_of(items.drop_last());
        match items.last().1 {
            Err(x) => e.push((items.last().0, x)),
            Ok(_) => e,
        }
    }
}

pub open spec fn statements_of(items: Seq<(nat, Result<StmtView, LineError>)>) -> Seq<StmtView>
    decreases items.len(),
{
    if items.len() == 0 {
        Seq::empty()
    } else {
        let s = statements_of(items.drop_last());
        match items.last().1 {
            Ok(st) => s.push(st),
            Err(_) => s,
        }
    }
}

/// The statements of a script, or every error in it with its line number.
pub open spec fn script_spec(text: Seq<char>) -> Result<Seq<StmtView>, Seq<(nat, LineError)>> {
    let items = script_items(split(text, '\n'), 0, None);
    if errors_of(items).len() > 0 {
        Err(errors_of(items))
    } else {
        Ok(statements_of(items))
    }
}

pub open spec fn errors_view(v: Seq<(usize, LineError)>) -> Seq<(nat, LineError)> {
    v.map_values(|e: (usize, LineError)| (e.0 as nat, e.1))
}

pub open spec fn pending_view(p: Option<(usize, Vec<Vec<char>>)>) -> Option<(nat, Seq<Seq<char>>)> {
    match p {
        Some(x) => Some((x.0 as nat, char_seqs(x.1@))),
        None => None,
    }
}

proof fn lemma_item_added(
    done: Seq<(nat, Result<StmtView, LineError>)>,
    x: (nat, Result<StmtView, LineError>),
    rest: Seq<(nat, Result<StmtView, LineError>)>,
)
    ensures
        done + (seq![x] + rest) == done.push(x) + rest,
        errors_of(done.push(x)) == match x.1 {
            Err(e) => errors_of(done).push((x.0, e)),
            Ok(_) => errors_of(done),
        },
        statements_of(done.push(x)) == match x.1 {
            Ok(st) => statements_of(done).push(st),
            Err(_) => statements_of(done),
        },
{
    assert(done + (seq![x] + rest) =~= done.push(x) + rest);
    assert(done.push(x).drop_last() =~= done);
}

/// Reads a whole script: its statements, or every error in it with its
/// line number.
pub fn parse_script(text: &str) -> (r: Result<Vec<Statement>, Vec<(usize, LineError)>>)
    ensures
        match r {
            Ok(v) => script_spec(text@) == Ok::<Seq<StmtView>, Seq<(nat, LineError)>>(
                crate::tree::stmts_view(v@),
            ),
            Err(es) => script_spec(text@) == Err::<Seq<StmtView>, Seq<(nat, LineError)>>(
                errors_view(es@),
            ),
        },
{
    let cs = chars_of(text);
    let lines = split_chars(&cs, '\n');
    let ghost all = char_seqs(lines@);
    let mut stmts: Vec<Statement> = Vec::new();
    let mut errs: Vec<(usize, LineError)> = Vec::new();
    let mut pending: Option<(usize, Vec<Vec<char>>)> = None;
    let ghost mut done: Seq<(nat, Result<StmtView, LineError>)> = Seq::empty();
    let mut k: usize = 0;
    assert(crate::tree::stmts_view(stmts@) =~= statements_of(done));
    assert(errors_view(errs@) =~= errors_of(done));
    while k < lines.len()
        invariant
            k <= lines@.len(),
            all == char_seqs(lines@),
            all == split(text@, '\n'),
            script_items(all, 0, None) == done + script_items(all, k as nat, pending_view(pending)),
            crate::tree::stmts_view(stmts@) == statements_of(done),
            errors_view(errs@) == errors_of(done),
        decreases (lines.len() - k) * 2 + if pending is Some {
            1int
        } else {
            0int
        },
    {
        assert(all[k as int] == lines@[k as int]@);
        let t = trimmed(&lines[k]);
        let mut ws = words_of(&t);
        let nw = ws.len();
        assert(nw > 0 ==> char_seqs(ws@)[0] == ws@[0]@);
        assert(nw > 0 ==> char_seqs(ws@).last() == ws@[nw - 1]@);
        let ghost rest = script_items(all, (k + 1) as nat, None);
        let mut next_line = true;
        match pending {
            Some((line, mut acc)) => {
                let ghost acc0 = acc@;
                let ghost ws0 = ws@;
                if t.len() == 0 {
                    pending = Some((line, acc));
                } else if nw == 2 && is_property_word(&ws[0]) {
                    acc.append(&mut ws);
                    assert(char_seqs(acc@) =~= char_seqs(acc0) + char_seqs(ws0));
                    pending = Some((line, acc));
                } else if nw == 1 && word_is(&ws[0], "}") {
                    acc.append(&mut ws);
                    assert(char_seqs(acc@) =~= char_seqs(acc0) + char_seqs(ws0));
                    let item = parse_load(&acc);
                    let ghost x = (line as nat, node_stmt(load_of(char_seqs(acc@))));
                    proof {
                        lemma_item_added(done, x, rest);
                        done = done.push(x);
                    }
                    match item {
                        Ok(u) => {
                            stmts.push(Statement::Node(u));
                            assert(crate::tree::stmts_view(stmts@) =~= statements_of(done));
                        },
                        Err(e) => {
                            errs.push((line, e));
                            assert(errors_view(errs@) =~= errors_of(done));
                        },
                    }
                    pending = None;
                } else {
                    let ghost x = (line as nat, Err::<StmtView, LineError>(LineError::BadLoad));
                    proof {
                        lemma_item_added(done, x, script_items(all, k as nat, None));
                        done = done.push(x);
                    }
                    errs.push((line, LineError::BadLoad));
                    assert(errors_view(errs@) =~= errors_of(done));
                    pending = None;
                    next_line = false;
                }
            },
            None => {
                let opens = nw > 0 && word_is(&ws[0], "load") && word_is(&ws[nw - 1], "{");
                if t.len() == 0 {
                } else if opens {
                    pending = Some((k + 1, ws));
                } else {
                    let item = parse_line(&t);
                    let ghost x = ((k + 1) as nat, line_stmt(t@));
                    proof {
                        lemma_item_added(done, x, rest);
                        done = done.push(x);
                    }
                    match item {
                        Ok(st) => {
                            stmts.push(st);
                            assert(crate::tree::stmts_view(stmts@) =~= statements_of(done));
                        },
                        Err(e) => {
                            errs.push((k + 1, e));
                            assert(errors_view(errs@) =~= errors_of(done));
                        },
                    }
                }
            },
        }
        if next_line {
            k = k + 1;
        }
    }
    match pending {
        Some((line, _)) => {
            let ghost x = (line as nat, Err::<StmtView, LineError>(LineError::UnclosedLoad));
            proof {
                lemma_item_added(done, x, Seq::empty());
                assert(seq![x] + Seq::<(nat, Result<StmtView, LineError>)>::empty() =~= seq![x]);
                done = done.push(x);
            }
            errs.push((line, LineError::UnclosedLoad));
            assert(errors_view(errs@) =~= errors_of(done));
        },
        None => {
            assert(done + Seq::<(nat, Result<StmtView, LineError>)>::empty() =~= done);
        },
    }
    if errs.len() > 0 {
        Err(errs)
    } else {
        Ok(stmts)
    }
}

} // verus!
