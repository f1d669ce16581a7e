//! Which instance variables a class has.

use vstd::prelude::*;

use crate::extract::{
    body_ivars, group_index, has_ivar, macro_ivar, property_macro, with_classes, with_group,
    with_ivar, with_macro_ivars, with_statement, without_ivar, Ivar, IvarGroups,
};
use crate::index::{with_groups, with_tree, IndexModel};
use crate::laws::extract::{lemma_shown_type, shows_type, Captures};
use crate::laws::receivers::lemma_statement_kinds;
use crate::syntax::{field_of, field_text, preorder, SynTree};
use crate::text::{without_leading, without_trailing};

verus! {

/// Whether `word` is one of `property`, `getter`, `setter`, `class_property`, `class_getter` and
/// `class_setter`.
pub open spec fn property_word(word: Seq<char>) -> bool {
    ||| word == "property"@
    ||| word == "getter"@
    ||| word == "setter"@
    ||| word == "class_property"@
    ||| word == "class_getter"@
    ||| word == "class_setter"@
}

/// Whether `marks` is made of question and exclamation marks.
pub open spec fn only_marks(marks: Seq<char>) -> bool {
    forall|i: int| 0 <= i < marks.len() ==> #[trigger] marks[i] == '?' || marks[i] == '!'
}

/// Whether `method` is the name of a macro that declares properties, with or without marks behind it.
pub open spec fn declares_properties(method: Seq<char>) -> bool {
    exists|word: Seq<char>, marks: Seq<char>|
        #![trigger property_word(word), only_marks(marks)]
        property_word(word) && only_marks(marks) && method == word + marks
}

proof fn lemma_without_marks(s: Seq<char>)
    ensures
        exists|marks: Seq<char>| #[trigger]
            only_marks(marks) && s == without_trailing(s, '?', '!') + marks,
    decreases s.len(),
{
    let base = without_trailing(s, '?', '!');
    if s.len() > 0 && (s.last() == '?' || s.last() == '!') {
        lemma_without_marks(s.drop_last());
        assert(base == without_trailing(s.drop_last(), '?', '!'));
        let marks = choose|marks: Seq<char>| #[trigger]
            only_marks(marks) && s.drop_last() == base + marks;
        let more = marks.push(s.last());
        assert(only_marks(more));
        assert(s =~= s.drop_last().push(s.last()));
        assert(base + more =~= (base + marks).push(s.last()));
    } else {
        let none = Seq::<char>::empty();
        assert(only_marks(none));
        assert(s =~= base + none);
    }
}

proof fn lemma_marks_dropped(word: Seq<char>, marks: Seq<char>)
    requires
        word.len() > 0,
        word.last() != '?',
        word.last() != '!',
        only_marks(marks),
    ensures
        without_trailing(word + marks, '?', '!') == word,
    decreases marks.len(),
{
    let s = word + marks;
    if marks.len() > 0 {
        let front = marks.drop_last();
        assert(s.drop_last() =~= word + front);
        assert(s.last() == marks[marks.len() - 1]);
        assert(only_marks(front)) by {
            assert(forall|i: int| 0 <= i < front.len() ==> #[trigger] front[i] == marks[i]);
        }
        lemma_marks_dropped(word, front);
    } else {
        assert(s =~= word);
    }
}

/// The macros that declare properties are known by their names, with or without marks behind them.
pub proof fn lemma_property_macros(method: Seq<char>)
    ensures
        property_macro(method) <==> declares_properties(method),
{
    lemma_without_marks(method);
    let base = without_trailing(method, '?', '!');
    let marks = choose|marks: Seq<char>| #[trigger] only_marks(marks) && method == base + marks;
    if property_macro(method) {
        assert(property_word(base));
    }
    if declares_properties(method) {
        let (word, tail) = choose|word: Seq<char>, tail: Seq<char>|
            #![trigger property_word(word), only_marks(tail)]
            property_word(word) && only_marks(tail) && method == word + tail;
        reveal_strlit("property");
        reveal_strlit("getter");
        reveal_strlit("setter");
        reveal_strlit("class_property");
        reveal_strlit("class_getter");
        reveal_strlit("class_setter");
        assert(word.len() > 0 && (word.last() == 'y' || word.last() == 'r'));
        lemma_marks_dropped(word, tail);
    }
}

/// Whether the argument `arg` of a macro that declares properties declares the variable `v`:
/// `name : Type`, `name` or `:name`.
pub open spec fn argument_gives(arg: SynTree, class: Seq<char>, v: Ivar) -> bool {
    &&& v.class_name == class
    &&& {
        ||| arg.kind == "type_declaration"@ && field_of(arg, "var"@) is Some && {
            let var = field_of(arg, "var"@)->0;
            &&& var.text is Some
            &&& v.name == seq!['@'] + var.text->0
            &&& v.var_type == field_text(arg, "type"@)
            &&& (v.line, v.col) == (var.start.row, var.start.column)
        }
        ||| arg.kind == "identifier"@ && arg.text is Some && v.name == seq!['@'] + arg.text->0
            && v.var_type is None && (v.line, v.col) == (arg.start.row, arg.start.column)
        ||| arg.kind == "symbol"@ && arg.text is Some && named_by_symbol(v.name, arg.text->0)
            && v.var_type is None && (v.line, v.col) == (arg.start.row, arg.start.column)
    }
}

/// Whether `name` is `@` and the name that `symbol` writes behind its colons.
pub open spec fn named_by_symbol(name: Seq<char>, symbol: Seq<char>) -> bool {
    exists|colons: Seq<char>, rest: Seq<char>|
        #![trigger colons + rest]
        symbol == colons + rest && (forall|i: int|
            0 <= i < colons.len() ==> #[trigger] colons[i] == ':') && (rest.len() > 0 ==> rest[0]
            != ':') && name == seq!['@'] + rest
}

/// Whether the statement `s` in the body of the class `class` declares the variable `v`: it assigns
/// to it, declares its type, or is a macro that declares it as a property.
pub open spec fn statement_gives(s: SynTree, class: Seq<char>, v: Ivar) -> bool {
    ||| s.kind == "assign"@ && v.class_name == class && field_of(s, "lhs"@) is Some && {
        let lhs = field_of(s, "lhs"@)->0;
        &&& lhs.kind == "instance_var"@
        &&& lhs.text == Some(v.name)
        &&& (v.line, v.col) == (lhs.start.row, lhs.start.column)
        &&& forall|ty: Seq<char>|
            v.var_type == Some(ty) <==> field_of(s, "rhs"@) is Some && #[trigger] shows_type(
                field_of(s, "rhs"@)->0,
                ty,
            )
    }
    ||| s.kind == "type_declaration"@ && v.class_name == class && field_of(s, "var"@) is Some && {
        let var = field_of(s, "var"@)->0;
        &&& var.kind == "instance_var"@
        &&& var.text == Some(v.name)
        &&& v.var_type == field_text(s, "type"@)
        &&& (v.line, v.col) == (var.start.row, var.start.column)
    }
    ||| s.kind == "call"@ && field_text(s, "method"@) is Some && declares_properties(
        field_text(s, "method"@)->0,
    ) && field_of(s, "arguments"@) is Some && exists|j: int|
        0 <= j < (field_of(s, "arguments"@)->0).children.len() && argument_gives(
            #[trigger] (field_of(s, "arguments"@)->0).children[j],
            class,
            v,
        )
}

proof fn lemma_without_colons(s: Seq<char>) -> (colons: Seq<char>)
    ensures
        s == colons + without_leading(s, ':'),
        forall|i: int| 0 <= i < colons.len() ==> #[trigger] colons[i] == ':',
        without_leading(s, ':').len() > 0 ==> without_leading(s, ':')[0] != ':',
    decreases s.len(),
{
    if s.len() > 0 && s[0] == ':' {
        let rest = lemma_without_colons(s.skip(1));
        let all = seq![':'] + rest;
        assert(s =~= seq![':'] + s.skip(1));
        assert(s =~= all + without_leading(s, ':'));
        all
    } else {
        let none = Seq::<char>::empty();
        assert(s =~= none + s);
        none
    }
}

proof fn lemma_colons_dropped(colons: Seq<char>, rest: Seq<char>)
    requires
        forall|i: int| 0 <= i < colons.len() ==> #[trigger] colons[i] == ':',
        rest.len() > 0 ==> rest[0] != ':',
    ensures
        without_leading(colons + rest, ':') == rest,
    decreases colons.len(),
{
    let s = colons + rest;
    if colons.len() > 0 {
        assert(s[0] == colons[0]);
        assert(s.skip(1) =~= colons.skip(1) + rest);
        lemma_colons_dropped(colons.skip(1), rest);
    } else {
        assert(s =~= rest);
    }
}

proof fn lemma_argument(arg: SynTree, class: Seq<char>, v: Ivar)
    ensures
        macro_ivar(arg, class) == Some(v) <==> argument_gives(arg, class, v),
{
    lemma_argument_kinds();
    if arg.kind == "symbol"@ && arg.text is Some {
        let text = arg.text->0;
        let colons = lemma_without_colons(text);
        let rest = without_leading(text, ':');
        if macro_ivar(arg, class) == Some(v) {
            assert(text == colons + rest);
            assert(named_by_symbol(v.name, text));
        }
        if named_by_symbol(v.name, text) {
            let (c, r) = choose|c: Seq<char>, r: Seq<char>|
                #![trigger c + r]
                text == c + r && (forall|i: int| 0 <= i < c.len() ==> #[trigger] c[i] == ':') && (
                r.len() > 0 ==> r[0] != ':') && v.name == seq!['@'] + r;
            lemma_colons_dropped(c, r);
        }
    }
}

proof fn lemma_with_ivar(vars: Seq<Ivar>, v: Ivar, w: Ivar, name: Seq<char>)
    ensures
        with_ivar(vars, v).contains(w) ==> vars.contains(w) || w == v,
        vars.contains(w) ==> with_ivar(vars, v).contains(w),
        has_ivar(with_ivar(vars, v), name) <==> has_ivar(vars, name) || v.name == name,
{
    let after = with_ivar(vars, v);
    if !has_ivar(vars, v.name) {
        assert(after[vars.len() as int] == v);
        assert(forall|i: int| 0 <= i < vars.len() ==> #[trigger] after[i] == vars[i]);
        if vars.contains(w) {
            let i = choose|i: int| 0 <= i < vars.len() && vars[i] == w;
            assert(after[i] == w);
        }
        if has_ivar(vars, name) {
            let i = choose|i: int| 0 <= i < vars.len() && (#[trigger] vars[i]).name == name;
            assert(after[i].name == name);
        }
        if has_ivar(after, name) && v.name != name {
            let i = choose|i: int| 0 <= i < after.len() && (#[trigger] after[i]).name == name;
            assert(vars[i].name == name);
        }
    }
}

/// What the arguments of a macro declare.
proof fn lemma_arguments(
    vars: Seq<Ivar>,
    args: Seq<SynTree>,
    class: Seq<char>,
    w: Ivar,
    name: Seq<char>,
)
    ensures
        with_macro_ivars(vars, args, class).contains(w) ==> vars.contains(w) || exists|j: int|
            0 <= j < args.len() && argument_gives(#[trigger] args[j], class, w),
        vars.contains(w) ==> with_macro_ivars(vars, args, class).contains(w),
        has_ivar(with_macro_ivars(vars, args, class), name) <==> has_ivar(vars, name) || exists|
            j: int,
            v: Ivar,
        |
            0 <= j < args.len() && #[trigger] argument_gives(args[j], class, v) && v.name == name,
    decreases args.len(),
{
    if args.len() > 0 {
        let front = args.drop_last();
        let last = args.last();
        let before = with_macro_ivars(vars, front, class);
        lemma_arguments(vars, front, class, w, name);
        assert(forall|j: int| 0 <= j < front.len() ==> #[trigger] front[j] == args[j]);
        assert(args[args.len() - 1] == last);
        assert forall|v: Ivar| macro_ivar(last, class) == Some(v) <==> #[trigger] argument_gives(
            last,
            class,
            v,
        ) by {
            lemma_argument(last, class, v);
        }
        if let Some(v) = macro_ivar(last, class) {
            lemma_with_ivar(before, v, w, name);
            assert(argument_gives(args[args.len() - 1], class, v));
        }
        if exists|j: int, v: Ivar|
            0 <= j < args.len() && #[trigger] argument_gives(args[j], class, v) && v.name == name {
            let (j, v) = choose|j: int, v: Ivar|
                0 <= j < args.len() && #[trigger] argument_gives(args[j], class, v) && v.name
                    == name;
            if j < front.len() {
                assert(argument_gives(front[j], class, v));
            } else {
                assert(argument_gives(last, class, v));
            }
        }
        if exists|j: int, v: Ivar|
            0 <= j < front.len() && #[trigger] argument_gives(front[j], class, v) && v.name
                == name {
            let (j, v) = choose|j: int, v: Ivar|
                0 <= j < front.len() && #[trigger] argument_gives(front[j], class, v) && v.name
                    == name;
            assert(argument_gives(args[j], class, v));
        }
        if exists|j: int| 0 <= j < front.len() && argument_gives(#[trigger] front[j], class, w) {
            let j = choose|j: int|
                0 <= j < front.len() && argument_gives(#[trigger] front[j], class, w);
            assert(argument_gives(args[j], class, w));
        }
    }
}

proof fn lemma_without(vars: Seq<Ivar>, gone: Seq<char>, w: Ivar, name: Seq<char>)
    ensures
        without_ivar(vars, gone).contains(w) <==> vars.contains(w) && w.name != gone,
        has_ivar(without_ivar(vars, gone), name) <==> has_ivar(vars, name) && name != gone,
    decreases vars.len(),
{
    if vars.len() > 0 {
        let front = vars.drop_last();
        let before = without_ivar(front, gone);
        lemma_without(front, gone, w, name);
        assert(vars =~= front + seq![vars.last()]);
        crate::require_glob::lemma_sum_contains(front, seq![vars.last()], w);
        assert(seq![vars.last()].contains(w) <==> w == vars.last()) by {
            assert(seq![vars.last()][0] == vars.last());
        }
        crate::require_glob::lemma_sum_contains(before, seq![vars.last()], w);
        assert(before + seq![vars.last()] =~= before.push(vars.last()));
        lemma_has_ivar_push(front, vars.last(), name);
        assert(front.push(vars.last()) =~= vars);
        lemma_has_ivar_push(before, vars.last(), name);
    }
}

proof fn lemma_has_ivar_push(vars: Seq<Ivar>, v: Ivar, name: Seq<char>)
    ensures
        has_ivar(vars.push(v), name) <==> has_ivar(vars, name) || v.name == name,
{
    let after = vars.push(v);
    assert(after[vars.len() as int] == v);
    if has_ivar(vars, name) {
        let i = choose|i: int| 0 <= i < vars.len() && (#[trigger] vars[i]).name == name;
        assert(after[i].name == name);
    }
    if has_ivar(after, name) && v.name != name {
        let i = choose|i: int| 0 <= i < after.len() && (#[trigger] after[i]).name == name;
        assert(vars[i].name == name);
    }
}

proof fn lemma_statement(
    vars: Seq<Ivar>,
    s: SynTree,
    class: Seq<char>,
    w: Ivar,
    name: Seq<char>,
)
    ensures
        with_statement(vars, s, class).contains(w) ==> vars.contains(w) || statement_gives(
            s,
            class,
            w,
        ),
        vars.contains(w) && (forall|v: Ivar| #[trigger]
            statement_gives(s, class, v) ==> v.name != w.name) ==> with_statement(
            vars,
            s,
            class,
        ).contains(w),
        has_ivar(with_statement(vars, s, class), name) <==> has_ivar(vars, name) || exists|v: Ivar|
            #[trigger] statement_gives(s, class, v) && v.name == name,
{
    lemma_statement_kinds();
    let after = with_statement(vars, s, class);
    if s.kind == "assign"@ {
        if let Some(lhs) = field_of(s, "lhs"@) {
            if lhs.kind == "instance_var"@ && lhs.text is Some {
                let v = Ivar {
                    name: lhs.text->0,
                    var_type: match field_of(s, "rhs"@) {
                        Some(rhs) => crate::extract::value_type(rhs),
                        None => None,
                    },
                    class_name: class,
                    line: lhs.start.row,
                    col: lhs.start.column,
                };
                if field_of(s, "rhs"@) is Some {
                    assert forall|ty: Seq<char>|
                        v.var_type == Some(ty) <==> field_of(s, "rhs"@) is Some
                            && #[trigger] shows_type(field_of(s, "rhs"@)->0, ty) by {
                        lemma_shown_type(field_of(s, "rhs"@)->0, ty);
                    }
                }
                assert(statement_gives(s, class, v));
                lemma_with_ivar(vars, v, w, name);
            }
        }
    } else if s.kind == "type_declaration"@ {
        if let Some(var) = field_of(s, "var"@) {
            if var.kind == "instance_var"@ && var.text is Some {
                let v = Ivar {
                    name: var.text->0,
                    var_type: field_text(s, "type"@),
                    class_name: class,
                    line: var.start.row,
                    col: var.start.column,
                };
                assert(statement_gives(s, class, v));
                let rest = without_ivar(vars, v.name);
                lemma_without(vars, v.name, w, name);
                lemma_has_ivar_push(rest, v, name);
                assert(rest.push(v) =~= rest + seq![v]);
                crate::require_glob::lemma_sum_contains(rest, seq![v], w);
                assert(seq![v].contains(w) <==> w == v) by {
                    assert(seq![v][0] == v);
                }
            }
        }
    } else if s.kind == "call"@ {
        if let Some(method) = field_text(s, "method"@) {
            lemma_property_macros(method);
            if let Some(args) = field_of(s, "arguments"@) {
                if property_macro(method) {
                    lemma_arguments(vars, args.children, class, w, name);
                    if exists|j: int, v: Ivar|
                        0 <= j < args.children.len() && #[trigger] argument_gives(
                            args.children[j],
                            class,
                            v,
                        ) && v.name == name {
                        let (j, v) = choose|j: int, v: Ivar|
                            0 <= j < args.children.len() && #[trigger] argument_gives(
                                args.children[j],
                                class,
                                v,
                            ) && v.name == name;
                        assert(argument_gives(
                            (field_of(s, "arguments"@)->0).children[j],
                            class,
                            v,
                        ));
                        assert(statement_gives(s, class, v));
                    }
                    if exists|v: Ivar| #[trigger] statement_gives(s, class, v) && v.name == name {
                        let v = choose|v: Ivar| #[trigger]
                            statement_gives(s, class, v) && v.name == name;
                        let j = choose|j: int|
                            0 <= j < args.children.len() && argument_gives(
                                #[trigger] args.children[j],
                                class,
                                v,
                            );
                        assert(argument_gives(args.children[j], class, v));
                    }
                }
            }
        }
    }
}

/// A class has an instance variable exactly where a statement of its body declares it, and what is
/// known of the variable is what such a statement says.
pub proof fn lemma_body_declares(
    statements: Seq<SynTree>,
    class: Seq<char>,
    w: Ivar,
    name: Seq<char>,
)
    ensures
        body_ivars(statements, class).contains(w) ==> exists|i: int|
            0 <= i < statements.len() && statement_gives(#[trigger] statements[i], class, w),
        has_ivar(body_ivars(statements, class), name) <==> exists|i: int, v: Ivar|
            0 <= i < statements.len() && #[trigger] statement_gives(statements[i], class, v)
                && v.name == name,
    decreases statements.len(),
{
    if statements.len() > 0 {
        let front = statements.drop_last();
        let last = statements.last();
        lemma_body_declares(front, class, w, name);
        lemma_statement(body_ivars(front, class), last, class, w, name);
        assert(forall|i: int| 0 <= i < front.len() ==> #[trigger] front[i] == statements[i]);
        assert(statements[statements.len() - 1] == last);
        if exists|i: int|
            0 <= i < front.len() && statement_gives(#[trigger] front[i], class, w) {
            let i = choose|i: int|
                0 <= i < front.len() && statement_gives(#[trigger] front[i], class, w);
            assert(statement_gives(statements[i], class, w));
        }
        if exists|i: int, v: Ivar|
            0 <= i < front.len() && #[trigger] statement_gives(front[i], class, v) && v.name
                == name {
            let (i, v) = choose|i: int, v: Ivar|
                0 <= i < front.len() && #[trigger] statement_gives(front[i], class, v) && v.name
                    == name;
            assert(statement_gives(statements[i], class, v));
        }
        if exists|v: Ivar| #[trigger] statement_gives(last, class, v) && v.name == name {
            let v = choose|v: Ivar| #[trigger] statement_gives(last, class, v) && v.name == name;
            assert(statement_gives(statements[statements.len() - 1], class, v));
        }
        if exists|i: int, v: Ivar|
            0 <= i < statements.len() && #[trigger] statement_gives(statements[i], class, v)
                && v.name == name {
            let (i, v) = choose|i: int, v: Ivar|
                0 <= i < statements.len() && #[trigger] statement_gives(statements[i], class, v)
                    && v.name == name;
            if i < front.len() {
                assert(statement_gives(front[i], class, v));
            } else {
                assert(statement_gives(last, class, v));
            }
        }
    }
}

/// The first declaration of a variable counts, unless a later statement declares it again: what is
/// known of it then stays as it is.
pub proof fn lemma_first_declaration_stays(
    statements: Seq<SynTree>,
    more: Seq<SynTree>,
    class: Seq<char>,
    w: Ivar,
)
    requires
        body_ivars(statements, class).contains(w),
        forall|i: int, v: Ivar|
            0 <= i < more.len() && #[trigger] statement_gives(more[i], class, v) ==> v.name
                != w.name,
    ensures
        body_ivars(statements + more, class).contains(w),
    decreases more.len(),
{
    let all = statements + more;
    if more.len() == 0 {
        assert(all =~= statements);
    } else {
        let front = more.drop_last();
        assert(all.drop_last() =~= statements + front);
        assert forall|i: int, v: Ivar|
            0 <= i < front.len() && #[trigger] statement_gives(front[i], class, v) implies v.name
            != w.name by {
            assert(statement_gives(more[i], class, v));
        }
        lemma_first_declaration_stays(statements, front, class, w);
        assert forall|v: Ivar| #[trigger] statement_gives(all.last(), class, v) implies v.name
            != w.name by {
            assert(statement_gives(more[more.len() - 1], class, v));
        }
        lemma_statement(body_ivars(all.drop_last(), class), all.last(), class, w, w.name);
    }
}

// ---------------------------------------------------------------------------
// The classes of a file
// ---------------------------------------------------------------------------

/// Whether the node `n` is a class or struct called `class` with a body.
pub open spec fn class_body(n: SynTree, class: Seq<char>) -> bool {
    &&& n.kind == "class_def"@ || n.kind == "struct_def"@
    &&& field_text(n, "name"@) == Some(class)
    &&& field_of(n, "body"@) is Some
}

/// The variables of a class among the groups.
pub open spec fn group_of(groups: IvarGroups, class: Seq<char>) -> Option<Seq<Ivar>> {
    match group_index(groups, class, groups.len() as int) {
        Some(i) => Some(groups[i].1),
        None => None,
    }
}

spec fn apart(groups: IvarGroups) -> bool {
    forall|i: int, j: int|
        0 <= i < j < groups.len() ==> (#[trigger] groups[i]).0 != (#[trigger] groups[j]).0
}

proof fn lemma_group_index(groups: IvarGroups, class: Seq<char>, n: int)
    requires
        0 <= n <= groups.len(),
    ensures
        match group_index(groups, class, n) {
            Some(i) => 0 <= i < n && groups[i].0 == class && forall|j: int|
                i < j < n ==> (#[trigger] groups[j]).0 != class,
            None => forall|j: int| 0 <= j < n ==> (#[trigger] groups[j]).0 != class,
        },
    decreases n,
{
    if n > 0 && groups[n - 1].0 != class {
        lemma_group_index(groups, class, n - 1);
    }
}

proof fn lemma_with_group(groups: IvarGroups, name: Seq<char>, vars: Seq<Ivar>, class: Seq<char>)
    requires
        apart(groups),
    ensures
        apart(with_group(groups, name, vars)),
        class != name ==> group_of(with_group(groups, name, vars), class) == group_of(groups, class),
        group_of(groups, name) is None ==> group_of(with_group(groups, name, vars), name) == Some(
            vars,
        ),
        group_of(groups, name) matches Some(held) ==> group_of(
            with_group(groups, name, vars),
            name,
        ) == Some(held + vars),
{
    let after = with_group(groups, name, vars);
    lemma_group_index(groups, name, groups.len() as int);
    lemma_group_index(groups, class, groups.len() as int);
    lemma_group_index(after, name, after.len() as int);
    lemma_group_index(after, class, after.len() as int);
    match group_index(groups, name, groups.len() as int) {
        Some(i) => {
            assert(forall|j: int| 0 <= j < groups.len() ==> (#[trigger] after[j]).0 == groups[j].0);
            assert(after[i] == (name, groups[i].1 + vars));
            if let Some(k) = group_index(after, name, after.len() as int) {
                assert(groups[k].0 == name && groups[i].0 == name);
                assert(k == i);
            }
            if let Some(k) = group_index(groups, class, groups.len() as int) {
                assert(after[k].0 == class);
            }
            if let Some(k) = group_index(after, class, after.len() as int) {
                assert(groups[k].0 == class);
            }
        },
        None => {
            assert(after[groups.len() as int] == (name, vars));
            assert(forall|j: int| 0 <= j < groups.len() ==> #[trigger] after[j] == groups[j]);
            if let Some(k) = group_index(groups, class, groups.len() as int) {
                assert(after[k].0 == class);
            }
            if let Some(k) = group_index(after, class, after.len() as int) {
                if class != name {
                    assert(groups[k].0 == class);
                }
            }
        },
    }
}

proof fn lemma_with_classes(nodes: Seq<SynTree>, class: Seq<char>)
    ensures
        apart(with_classes(Seq::empty(), nodes)),
        (forall|j: int| 0 <= j < nodes.len() ==> !class_body(#[trigger] nodes[j], class))
            ==> group_of(with_classes(Seq::empty(), nodes), class) is None,
        forall|k: int|
            0 <= k < nodes.len() && class_body(#[trigger] nodes[k], class) && (forall|j: int|
                0 <= j < nodes.len() && j != k ==> !class_body(#[trigger] nodes[j], class))
                ==> group_of(with_classes(Seq::empty(), nodes), class) == {
                let vars = body_ivars((field_of(nodes[k], "body"@)->0).children, class);
                if vars.len() > 0 {
                    Some(vars)
                } else {
                    None
                }
            },
    decreases nodes.len(),
{
    let none: IvarGroups = Seq::empty();
    if nodes.len() > 0 {
        let front = nodes.drop_last();
        let last = nodes.last();
        let before = with_classes(none, front);
        lemma_with_classes(front, class);
        assert(forall|j: int| 0 <= j < front.len() ==> #[trigger] front[j] == nodes[j]);
        assert(nodes[nodes.len() - 1] == last);
        if (last.kind == "class_def"@ || last.kind == "struct_def"@) && field_text(last, "name"@)
            is Some && field_of(last, "body"@) is Some {
            let name = field_text(last, "name"@)->0;
            let vars = body_ivars((field_of(last, "body"@)->0).children, name);
            if vars.len() > 0 {
                lemma_with_group(before, name, vars, class);
            }
        }
        assert forall|k: int|
            0 <= k < nodes.len() && class_body(#[trigger] nodes[k], class) && (forall|j: int|
                0 <= j < nodes.len() && j != k ==> !class_body(
                    #[trigger] nodes[j],
                    class,
                )) implies group_of(with_classes(none, nodes), class) == {
            let vars = body_ivars((field_of(nodes[k], "body"@)->0).children, class);
            if vars.len() > 0 {
                Some(vars)
            } else {
                None
            }
        } by {
            if k < front.len() {
                assert(class_body(front[k], class));
                assert(!class_body(nodes[nodes.len() - 1], class));
                assert forall|j: int| 0 <= j < front.len() && j != k implies !class_body(
                    #[trigger] front[j],
                    class,
                ) by {
                    assert(!class_body(nodes[j], class));
                }
            } else {
                assert forall|j: int| 0 <= j < front.len() implies !class_body(
                    #[trigger] front[j],
                    class,
                ) by {
                    assert(!class_body(nodes[j], class));
                }
            }
        }
    } else {
        assert(none.len() == 0);
    }
}

proof fn lemma_with_groups(ivars: Map<Seq<char>, Seq<Ivar>>, groups: IvarGroups, class: Seq<char>)
    requires
        apart(groups),
    ensures
        match group_of(groups, class) {
            Some(vars) => with_groups(ivars, groups).contains_key(class) && with_groups(
                ivars,
                groups,
            )[class] == vars,
            None => with_groups(ivars, groups).contains_key(class) == ivars.contains_key(class) && (
            ivars.contains_key(class) ==> with_groups(ivars, groups)[class] == ivars[class]),
        },
    decreases groups.len(),
{
    lemma_group_index(groups, class, groups.len() as int);
    if groups.len() > 0 {
        let front = groups.drop_last();
        lemma_with_groups(ivars, front, class);
        lemma_group_index(front, class, front.len() as int);
        assert(forall|j: int| 0 <= j < front.len() ==> #[trigger] front[j] == groups[j]);
        if let Some(k) = group_index(front, class, front.len() as int) {
            assert(groups[k].0 == class);
        }
        if let Some(k) = group_index(groups, class, groups.len() as int) {
            if k < front.len() {
                assert(front[k].0 == class);
            }
        }
    }
}

/// A class or struct that is opened again keeps the variables that it has, and gets those of its further
/// body behind them.
pub proof fn lemma_class_is_opened_again(nodes: Seq<SynTree>, n: SynTree, class: Seq<char>)
    requires
        class_body(n, class),
    ensures
        ({
            let before = group_of(with_classes(Seq::empty(), nodes), class);
            let vars = body_ivars((field_of(n, "body"@)->0).children, class);
            let after = group_of(with_classes(Seq::empty(), nodes.push(n)), class);
            &&& vars.len() == 0 ==> after == before
            &&& vars.len() > 0 && before is None ==> after == Some(vars)
            &&& vars.len() > 0 && before is Some ==> after == Some(before->0 + vars)
        }),
{
    let all = nodes.push(n);
    let before = with_classes(Seq::empty(), nodes);
    let vars = body_ivars((field_of(n, "body"@)->0).children, class);
    assert(all.drop_last() =~= nodes);
    lemma_with_classes(nodes, class);
    lemma_with_group(before, class, vars, class);
}

/// After a file was read, a class or struct that it defines once, with a body that declares instance
/// variables, has those and no others.
pub proof fn lemma_ivars_of_file(
    ix: IndexModel,
    path: Seq<char>,
    tree: SynTree,
    matches: Seq<Captures>,
    k: int,
    class: Seq<char>,
)
    requires
        0 <= k < preorder(tree).len(),
        class_body(preorder(tree)[k], class),
        forall|j: int|
            0 <= j < preorder(tree).len() && j != k ==> !class_body(
                #[trigger] preorder(tree)[j],
                class,
            ),
        body_ivars((field_of(preorder(tree)[k], "body"@)->0).children, class).len() > 0,
    ensures
        ({
            let ivars = with_tree(ix, path, tree, matches).ivars;
            ivars.contains_key(class) && ivars[class] == body_ivars(
                (field_of(preorder(tree)[k], "body"@)->0).children,
                class,
            )
        }),
{
    lemma_with_classes(preorder(tree), class);
    lemma_with_groups(ix.ivars, with_classes(Seq::empty(), preorder(tree)), class);
}

/// Reading a file leaves the variables of a class alone that it does not define.
pub proof fn lemma_other_ivars_stay(
    ix: IndexModel,
    path: Seq<char>,
    tree: SynTree,
    matches: Seq<Captures>,
    class: Seq<char>,
)
    requires
        forall|j: int|
            0 <= j < preorder(tree).len() ==> !class_body(#[trigger] preorder(tree)[j], class),
    ensures
        ({
            let ivars = with_tree(ix, path, tree, matches).ivars;
            &&& ivars.contains_key(class) == ix.ivars.contains_key(class)
            &&& ivars.contains_key(class) ==> ivars[class] == ix.ivars[class]
        }),
{
    lemma_with_classes(preorder(tree), class);
    lemma_with_groups(ix.ivars, with_classes(Seq::empty(), preorder(tree)), class);
}

/// The kinds of arguments that name a property are different words.
proof fn lemma_argument_kinds()
    ensures
        "type_declaration"@.len() == 16,
        "identifier"@.len() == 10,
        "symbol"@.len() == 6,
{
    reveal_strlit("type_declaration");
    reveal_strlit("identifier");
    reveal_strlit("symbol");
}


} // verus!
