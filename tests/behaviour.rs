use novelscript::{
    build_tree, parse_line, parse_script, BuildError, CompareableData, Comparison, Condition,
    LineError, Novel, NovelError, NovelState, Predicate, SavedState, SceneNodeData, SceneNodeLoad,
    SceneNodeUser, Scope, ScriptError, Statement,
};

fn text(speaker: Option<&str>, content: &str) -> Option<SceneNodeUser> {
    Some(SceneNodeUser::Data(SceneNodeData::Text {
        speaker: speaker.map(String::from),
        content: content.into(),
    }))
}

fn novel_with(scenes: &[(&str, &str)]) -> Novel {
    let mut novel = Novel::new();
    for (name, script) in scenes {
        novel.add_scene(name.to_string(), script).unwrap();
    }
    novel
}

fn chars(s: &str) -> Vec<char> {
    s.chars().collect()
}

#[test]
fn undefined_variable_is_an_error_not_the_end() {
    let novel = novel_with(&[("s", "foo: hi\nif x = 1\nbar: yes\nend")]);
    let mut state = novel.new_state("s");
    assert_eq!(novel.next(&mut state).unwrap(), text(Some("foo"), "hi"));
    assert_eq!(novel.next(&mut state), Err(NovelError::UndefinedVariable));
    state.set_variable("x".into(), 1).unwrap();
    assert_eq!(novel.next(&mut state).unwrap(), text(Some("bar"), "yes"));
}

#[test]
fn recorded_choice_selects_the_following_branch() {
    let novel = novel_with(&[("s", "[a / b]\nif choice = 1\n_: picked a\nend")]);
    let mut state = novel.new_state("s");
    assert_eq!(
        novel.next(&mut state).unwrap(),
        Some(SceneNodeUser::Data(SceneNodeData::Choice(vec!["a".into(), "b".into()])))
    );
    state.set_choice(1);
    assert_eq!(novel.next(&mut state).unwrap(), text(None, "picked a"));
    assert_eq!(novel.next(&mut state).unwrap(), None);
}

#[test]
fn jump_inside_if_leaves_the_conditional() {
    let novel = novel_with(&[
        ("main", "if go = 1\n  jump other\n  _: never\nend\n_: after"),
        ("other", "o: one\no: two"),
    ]);
    let mut state = novel.new_state("main");
    state.set_variable("go".into(), 1).unwrap();
    assert_eq!(novel.next(&mut state).unwrap(), text(Some("o"), "one"));
    assert_eq!(novel.next(&mut state).unwrap(), text(Some("o"), "two"));
    assert_eq!(novel.next(&mut state).unwrap(), None);
}

#[test]
fn self_jump_restarts_the_scene() {
    let novel = novel_with(&[("loop", "_: top\n_: middle\nif n = 0\n  jump loop\nend")]);
    let mut state = novel.new_state("loop");
    state.set_variable("n".into(), 0).unwrap();
    assert_eq!(novel.next(&mut state).unwrap(), text(None, "top"));
    assert_eq!(novel.next(&mut state).unwrap(), text(None, "middle"));
    assert_eq!(novel.next(&mut state).unwrap(), text(None, "top"));
    assert_eq!(novel.next(&mut state).unwrap(), text(None, "middle"));
    state.set_variable("n".into(), 1).unwrap();
    assert_eq!(novel.next(&mut state).unwrap(), None);
}

#[test]
fn jump_chain_without_output_hits_the_limit() {
    let novel = novel_with(&[("a", "jump b"), ("b", "jump a")]);
    let mut state = novel.new_state("a");
    assert_eq!(novel.next(&mut state), Err(NovelError::JumpLimit));
}

#[test]
fn unknown_scenes_are_reported() {
    let novel = novel_with(&[("a", "_: hello\njump nowhere")]);
    let mut missing = novel.new_state("elsewhere");
    assert_eq!(novel.next(&mut missing), Err(NovelError::UnknownScene));
    let mut state = novel.new_state("a");
    assert_eq!(novel.next(&mut state).unwrap(), text(None, "hello"));
    assert_eq!(novel.next(&mut state), Err(NovelError::UnknownScene));
    assert_eq!(novel.next(&mut state), Err(NovelError::UnknownScene));
}

#[test]
fn choice_is_a_reserved_name() {
    let novel = novel_with(&[("a", "_: x")]);
    let mut state = novel.new_state("a");
    assert_eq!(state.set_variable("choice".into(), 3), Err(NovelError::ReservedName));
    assert_eq!(state.set_variable("other".into(), 3), Ok(()));
}

#[test]
fn a_cursor_that_does_not_fit_its_scene_is_refused() {
    let novel = novel_with(&[("a", "_: x\n_: y")]);
    let saved = SavedState {
        scene: "a".into(),
        variables: vec![],
        scopes: vec![
            Scope { choice: 0, branch: None, index: 0 },
            Scope { choice: 0, branch: None, index: 0 },
        ],
    };
    let mut state = NovelState::restore(saved).unwrap();
    assert_eq!(novel.next(&mut state), Err(NovelError::BrokenCursor));
    let empty = SavedState { scene: "a".into(), variables: vec![], scopes: vec![] };
    assert!(NovelState::restore(empty).is_none());
}

fn arms_script() -> &'static str {
    "if a = 1\n_: one\nelseif b = 2\n_: two\nelseif zzz = 3\n_: three\nelse\n_: other\nend\n_: done"
}

#[test]
fn first_true_arm_wins_and_later_arms_are_not_evaluated() {
    let novel = novel_with(&[("s", arms_script())]);
    let mut state = novel.new_state("s");
    state.set_variable("a".into(), 0).unwrap();
    state.set_variable("b".into(), 2).unwrap();
    assert_eq!(novel.next(&mut state).unwrap(), text(None, "two"));
    assert_eq!(novel.next(&mut state).unwrap(), text(None, "done"));
    assert_eq!(novel.next(&mut state).unwrap(), None);
}

#[test]
fn if_arm_wins_over_everything_after_it() {
    let novel = novel_with(&[("s", arms_script())]);
    let mut state = novel.new_state("s");
    state.set_variable("a".into(), 1).unwrap();
    assert_eq!(novel.next(&mut state).unwrap(), text(None, "one"));
    assert_eq!(novel.next(&mut state).unwrap(), text(None, "done"));
}

#[test]
fn else_arm_is_entered_when_nothing_holds() {
    let novel = novel_with(&[("s", arms_script())]);
    let mut state = novel.new_state("s");
    state.set_variable("a".into(), 0).unwrap();
    state.set_variable("b".into(), 0).unwrap();
    assert_eq!(novel.next(&mut state), Err(NovelError::UndefinedVariable));
    state.set_variable("zzz".into(), 0).unwrap();
    assert_eq!(novel.next(&mut state).unwrap(), text(None, "other"));
    assert_eq!(novel.next(&mut state).unwrap(), text(None, "done"));
}

#[test]
fn no_arm_is_entered_without_else() {
    let novel = novel_with(&[("s", "if a > 5\n_: big\nelseif a < 0\n_: negative\nend\n_: done")]);
    let mut state = novel.new_state("s");
    state.set_variable("a".into(), 3).unwrap();
    assert_eq!(novel.next(&mut state).unwrap(), text(None, "done"));
}

#[test]
fn inner_choice_does_not_leak_to_the_outer_frame() {
    let novel = novel_with(&[(
        "s",
        "[x / y]\nif choice = 1\n  [p / q]\nend\nif choice = 2\n_: leaked\nend\n_: done",
    )]);
    let mut state = novel.new_state("s");
    assert!(novel.next(&mut state).unwrap().is_some());
    state.set_choice(1);
    assert_eq!(
        novel.next(&mut state).unwrap(),
        Some(SceneNodeUser::Data(SceneNodeData::Choice(vec!["p".into(), "q".into()])))
    );
    state.set_choice(2);
    assert_eq!(novel.next(&mut state).unwrap(), text(None, "done"));
}

#[test]
fn saved_cursor_resumes_identically() {
    let script = "a: 1\nif x = 4\n  a: 2\n  if y != 0\n    a: 3\n  end\n  a: 4\nend\na: 5";
    let novel = novel_with(&[("s", script)]);
    let mut state = novel.new_state("s");
    state.set_variable("x".into(), 4).unwrap();
    state.set_variable("y".into(), 1).unwrap();
    assert_eq!(novel.next(&mut state).unwrap(), text(Some("a"), "1"));
    assert_eq!(novel.next(&mut state).unwrap(), text(Some("a"), "2"));
    let mut copy = NovelState::restore(state.save()).unwrap();
    for expected in ["3", "4", "5"] {
        assert_eq!(novel.next(&mut state).unwrap(), text(Some("a"), expected));
        assert_eq!(novel.next(&mut copy).unwrap(), text(Some("a"), expected));
    }
    assert_eq!(novel.next(&mut state).unwrap(), None);
    assert_eq!(novel.next(&mut copy).unwrap(), None);
}

#[test]
fn finished_scene_stays_finished() {
    let novel = novel_with(&[("s", "if x = 1\n_: inside\nend")]);
    let mut state = novel.new_state("s");
    state.set_variable("x".into(), 1).unwrap();
    assert_eq!(novel.next(&mut state).unwrap(), text(None, "inside"));
    for _ in 0..3 {
        assert_eq!(novel.next(&mut state).unwrap(), None);
    }
}

#[test]
fn flat_scene_yields_in_order_then_none() {
    let novel = novel_with(&[("s", "a: one\nb: two\nc: three\nd: four")]);
    let mut state = novel.new_state("s");
    for (s, c) in [("a", "one"), ("b", "two"), ("c", "three"), ("d", "four")] {
        assert_eq!(novel.next(&mut state).unwrap(), text(Some(s), c));
    }
    assert_eq!(novel.next(&mut state).unwrap(), None);
}

#[test]
fn empty_scene_yields_none() {
    let novel = novel_with(&[("s", "\n   \n")]);
    let mut state = novel.new_state("s");
    assert_eq!(novel.next(&mut state).unwrap(), None);
}

#[test]
fn every_bad_line_is_reported_with_its_number() {
    let mut novel = Novel::new();
    let r = novel.add_scene(
        "s".into(),
        "foo: ok\nbogus line\nif x ? 3\nend\nload A {\nwhatever x\n}\njump\nplay a b c d",
    );
    match r {
        Err(ScriptError::Parse(errors)) => assert_eq!(
            errors,
            vec![
                (2, LineError::UnknownSyntax),
                (3, LineError::BadCondition),
                (5, LineError::BadLoad),
                (6, LineError::UnknownSyntax),
                (7, LineError::UnknownSyntax),
                (8, LineError::BadArguments),
                (9, LineError::BadArguments),
            ]
        ),
        other => panic!("unexpected {:?}", other),
    }
    let mut state = novel.new_state("s");
    assert_eq!(novel.next(&mut state), Err(NovelError::UnknownScene));
}

#[test]
fn unclosed_load_block_is_reported() {
    assert_eq!(
        parse_script("_: hi\nload A {\nexpression x").unwrap_err(),
        vec![(2, LineError::UnclosedLoad)]
    );
}

#[test]
fn a_bad_load_line_hides_no_later_line() {
    assert_eq!(
        parse_script("load Bar\n???").unwrap_err(),
        vec![(1, LineError::BadLoad), (2, LineError::UnknownSyntax)]
    );
    assert_eq!(
        parse_script("load Bar {\nexpression Calm\n???\n_: fine\n}").unwrap_err(),
        vec![(1, LineError::BadLoad), (3, LineError::UnknownSyntax), (5, LineError::UnknownSyntax)]
    );
}

#[test]
fn load_block_may_hold_blank_lines() {
    let novel = novel_with(&[("s", "load Bar {\n\n  placement Left\n\n}\n_: after")]);
    let mut state = novel.new_state("s");
    assert_eq!(
        novel.next(&mut state).unwrap(),
        Some(SceneNodeUser::Load(SceneNodeLoad::Character {
            character: "Bar".into(),
            expression: None,
            placement: Some("Left".into()),
        }))
    );
    assert_eq!(novel.next(&mut state).unwrap(), text(None, "after"));
}

#[test]
fn unicode_whitespace_separates_and_trims() {
    let novel = novel_with(&[("s", "\u{3000}foo:\u{a0}bar\u{2003}\nif\u{2009}x\u{85}=\u{a0}1\n_: one\nend")]);
    let mut state = novel.new_state("s");
    state.set_variable("x".into(), 1).unwrap();
    assert_eq!(novel.next(&mut state).unwrap(), text(Some("foo"), "bar"));
    assert_eq!(novel.next(&mut state).unwrap(), text(None, "one"));
}

#[test]
fn nesting_errors_are_reported() {
    let mut novel = Novel::new();
    assert!(matches!(
        novel.add_scene("s".into(), "if a = 1\n_: x"),
        Err(ScriptError::Build(BuildError::Unterminated))
    ));
    assert!(matches!(
        novel.add_scene("s".into(), "_: x\nend"),
        Err(ScriptError::Build(BuildError::Unmatched))
    ));
    assert!(matches!(
        novel.add_scene("s".into(), "if a = 1\nelse\nelseif b = 1\nend"),
        Err(ScriptError::Build(BuildError::ArmAfterElse))
    ));
}

#[test]
fn single_line_load_and_placement() {
    let novel = novel_with(&[(
        "s",
        "load Ann { placement Left expression Happy placement Right }\nset Ann placement Far",
    )]);
    let mut state = novel.new_state("s");
    assert_eq!(
        novel.next(&mut state).unwrap(),
        Some(SceneNodeUser::Load(SceneNodeLoad::Character {
            character: "Ann".into(),
            expression: Some("Happy".into()),
            placement: Some("Right".into()),
        }))
    );
    assert_eq!(
        novel.next(&mut state).unwrap(),
        Some(SceneNodeUser::Load(SceneNodeLoad::Character {
            character: "Ann".into(),
            expression: None,
            placement: Some("Far".into()),
        }))
    );
}

#[test]
fn negative_and_out_of_range_literals() {
    let novel = novel_with(&[("s", "if x = -5\n_: neg\nend\nif x < 2147483648\n_: never\nend")]);
    let mut state = novel.new_state("s");
    state.set_variable("x".into(), -5).unwrap();
    assert_eq!(novel.next(&mut state).unwrap(), text(None, "neg"));
    assert_eq!(novel.next(&mut state), Err(NovelError::UndefinedVariable));
}

#[test]
fn condition_check_and_reverse() {
    let vars = vec![("x".to_string(), 2)];
    let c = Condition::compare(
        CompareableData::Number(3),
        Comparison::MoreThan,
        CompareableData::Variable("x".into()),
    );
    assert_eq!(c.check(&vars), Ok(true));
    let r = c.clone().new_reverse();
    assert!(r.negated);
    assert_eq!(r.check(&vars), Ok(false));
    assert_eq!(r.clone().new_reverse(), c);
    assert_eq!(c.check(&vec![]), Err(NovelError::UndefinedVariable));
    assert_eq!(r.check(&vec![]), Err(NovelError::UndefinedVariable));
}

#[test]
fn reverse_is_a_negation_on_equal_operands() {
    let vars = vec![("x".to_string(), 3)];
    let more = Condition::compare(
        CompareableData::Variable("x".into()),
        Comparison::MoreThan,
        CompareableData::Number(3),
    );
    assert_eq!(more.check(&vars), Ok(false));
    assert_eq!(more.new_reverse().check(&vars), Ok(true));
}

#[test]
fn is_set_condition() {
    let set = Condition::is_set("flag".into());
    assert_eq!(set.check(&vec![]), Ok(false));
    assert_eq!(set.check(&vec![("flag".to_string(), 0)]), Ok(true));
    assert_eq!(set.clone().new_reverse().check(&vec![]), Ok(true));
    assert_eq!(parse_line(&chars("if flag")), Ok(Statement::If(Condition::is_set("flag".into()))));
    let novel = novel_with(&[("s", "if flag
_: set
elseif other
_: other
else
_: neither
end")]);
    let mut state = novel.new_state("s");
    assert_eq!(novel.next(&mut state).unwrap(), text(None, "neither"));
    let mut state = novel.new_state("s");
    state.set_variable("other".into(), 5).unwrap();
    assert_eq!(novel.next(&mut state).unwrap(), text(None, "other"));
    let mut state = novel.new_state("s");
    state.set_variable("flag".into(), 0).unwrap();
    assert_eq!(novel.next(&mut state).unwrap(), text(None, "set"));
}

#[test]
fn sound_channel_is_optional() {
    let novel = novel_with(&[("s", "play relax
play relax music
play noise on sfx")]);
    let mut state = novel.new_state("s");
    let sound = |name: &str, channel: Option<&str>| {
        Some(SceneNodeUser::Load(SceneNodeLoad::PlaySound {
            name: name.into(),
            channel: channel.map(String::from),
        }))
    };
    assert_eq!(novel.next(&mut state).unwrap(), sound("relax", None));
    assert_eq!(novel.next(&mut state).unwrap(), sound("relax", Some("music")));
    assert_eq!(novel.next(&mut state).unwrap(), sound("noise", Some("sfx")));
}

#[test]
fn failed_call_leaves_the_cursor_as_it_was() {
    let novel = novel_with(&[("s", "[a / b]
if x = 1
  _: inside
end
_: after")]);
    let mut state = novel.new_state("s");
    assert!(novel.next(&mut state).unwrap().is_some());
    let before = state.clone().save();
    assert_eq!(novel.next(&mut state), Err(NovelError::UndefinedVariable));
    let after = state.save();
    assert_eq!(before.scene, after.scene);
    assert_eq!(before.variables, after.variables);
    assert_eq!(before.scopes, after.scopes);
    state.set_variable("x".into(), 0).unwrap();
    assert_eq!(novel.next(&mut state).unwrap(), text(None, "after"));
}

#[test]
fn cloned_novel_and_cursor_play_alike() {
    let novel = novel_with(&[("s", "if x = 1
  _: one
end
_: two")]);
    let copy = novel.clone();
    let mut state = novel.new_state("s");
    state.set_variable("x".into(), 1).unwrap();
    let mut other = state.clone();
    assert_eq!(novel.next(&mut state).unwrap(), text(None, "one"));
    assert_eq!(copy.next(&mut other).unwrap(), text(None, "one"));
    assert_eq!(novel.next(&mut state).unwrap(), text(None, "two"));
    assert_eq!(copy.next(&mut other).unwrap(), text(None, "two"));
    assert_eq!(Novel::default().next(&mut novel.new_state("s")), Err(NovelError::UnknownScene));
}

#[test]
fn line_forms() {
    assert_eq!(
        parse_line(&chars("[ one /two/ three four ]")),
        Ok(Statement::Node(SceneNodeUser::Data(SceneNodeData::Choice(vec![
            "one".into(),
            "two".into(),
            "three four".into()
        ]))))
    );
    assert_eq!(
        parse_line(&chars("Ann :   well:  yes")),
        Ok(Statement::Node(SceneNodeUser::Data(SceneNodeData::Text {
            speaker: Some("Ann".into()),
            content: "well:  yes".into(),
        })))
    );
    assert_eq!(
        parse_line(&chars(": nobody")),
        Ok(Statement::Node(SceneNodeUser::Data(SceneNodeData::Text {
            speaker: None,
            content: "nobody".into(),
        })))
    );
    assert_eq!(
        parse_line(&chars("elseif y != 7")),
        Ok(Statement::ElseIf(Condition {
            predicate: Predicate::Compare {
                first: CompareableData::Variable("y".into()),
                compare: Comparison::NotEquals,
                second: CompareableData::Number(7),
            },
            negated: false,
        }))
    );
    assert_eq!(parse_line(&chars("jump next")), Ok(Statement::Jump("next".into())));
    assert_eq!(parse_line(&chars("no colon here")), Err(LineError::UnknownSyntax));
    assert_eq!(parse_line(&chars("if x =")), Err(LineError::BadCondition));
}

#[test]
fn statements_nest_into_a_tree() {
    let cond = |n: i32| {
        Condition::compare(
            CompareableData::Variable("v".into()),
            Comparison::Equals,
            CompareableData::Number(n),
        )
    };
    let say = |s: &str| {
        Statement::Node(SceneNodeUser::Data(SceneNodeData::Text {
            speaker: None,
            content: s.into(),
        }))
    };
    let tree = build_tree(vec![
        say("a"),
        Statement::If(cond(1)),
        say("b"),
        Statement::ElseIf(cond(2)),
        Statement::Jump("x".into()),
        Statement::Else,
        Statement::End,
        say("c"),
    ])
    .unwrap();
    assert_eq!(tree.len(), 3);
    match &tree[1] {
        novelscript::SceneNode::Control(novelscript::SceneNodeControl::If {
            cond: c,
            content,
            else_ifs,
            else_content,
        }) => {
            assert_eq!(*c, cond(1));
            assert_eq!(content.len(), 1);
            assert_eq!(else_ifs.len(), 1);
            assert_eq!(else_ifs[0].0, cond(2));
            assert_eq!(else_content.as_ref().map(|b| b.len()), Some(0));
        }
        other => panic!("unexpected {:?}", other),
    }
}
