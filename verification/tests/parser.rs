use bf::{parse_src, Error, Op};

fn symbols(ops: &[Op]) -> String {
    ops.iter().map(|op| op.symbol()).collect()
}

#[test]
fn empty_source_has_no_instructions() {
    assert_eq!(parse_src(""), Ok(vec![]));
}

#[test]
fn each_character_gives_its_instruction() {
    assert_eq!(
        parse_src("><+-,.[]"),
        Ok(vec![
            Op::MovePtrRight,
            Op::MovePtrLeft,
            Op::IncCell,
            Op::DecCell,
            Op::Input,
            Op::Output,
            Op::LoopOpen(7),
            Op::LoopClose(6),
        ])
    );
}

#[test]
fn comments_are_skipped() {
    let plain = parse_src("+[>+<-]>.");
    assert!(plain.is_ok());
    assert_eq!(parse_src("add: + loop [ right > + left < - ] > print ."), plain);
    assert_eq!(parse_src("\n+\t[ >\r\n+<-]  >.\n"), plain);
    assert_eq!(parse_src("+[>+<-]>.!#%&*()=_abc123"), plain);
}

#[test]
fn comments_outside_ascii_are_skipped() {
    assert_eq!(parse_src("é+ü→[日本-]語."), parse_src("+[-]."));
}

#[test]
fn comments_do_not_count_towards_targets() {
    assert_eq!(
        parse_src("xx[yy+zz]ww"),
        Ok(vec![Op::LoopOpen(2), Op::IncCell, Op::LoopClose(0)])
    );
}

#[test]
fn source_of_comments_only_is_empty() {
    assert_eq!(parse_src("no instruction here"), Ok(vec![]));
}

#[test]
fn instructions_keep_source_order() {
    let src = "a+b[c>d,e.f<g-h]i";
    let ops = parse_src(src).unwrap();
    assert_eq!(symbols(&ops), "+[>,.<-]");
}

#[test]
fn symbols_give_back_the_stripped_source() {
    let src = "++[>++[>+<-]<-]>>.,[-]";
    let ops = parse_src(src).unwrap();
    assert_eq!(symbols(&ops), src);
}

#[test]
fn nested_brackets_point_at_their_partners() {
    assert_eq!(
        parse_src("[[][]]"),
        Ok(vec![
            Op::LoopOpen(5),
            Op::LoopOpen(2),
            Op::LoopClose(1),
            Op::LoopOpen(4),
            Op::LoopClose(3),
            Op::LoopClose(0),
        ])
    );
}

#[test]
fn deep_nesting_pairs_innermost_first() {
    assert_eq!(
        parse_src("[[[+]]]"),
        Ok(vec![
            Op::LoopOpen(6),
            Op::LoopOpen(5),
            Op::LoopOpen(4),
            Op::IncCell,
            Op::LoopClose(2),
            Op::LoopClose(1),
            Op::LoopClose(0),
        ])
    );
}

#[test]
fn every_bracket_and_its_target_point_at_each_other() {
    let ops = parse_src("+[>[-]<[->+<]>[[.-]<]]+[]").unwrap();
    let mut opens = 0;
    for (i, op) in ops.iter().enumerate() {
        match *op {
            Op::LoopOpen(t) => {
                opens += 1;
                assert!(i < t);
                assert_eq!(ops[t], Op::LoopClose(i));
            }
            Op::LoopClose(t) => {
                assert!(t < i);
                assert_eq!(ops[t], Op::LoopOpen(i));
            }
            _ => {}
        }
    }
    assert_eq!(opens, 6);
}

#[test]
fn lone_close_is_unmatched_close() {
    assert_eq!(parse_src("]"), Err(Error::UnmatchedClose));
}

#[test]
fn lone_open_is_unmatched_open() {
    assert_eq!(parse_src("["), Err(Error::UnmatchedOpen));
}

#[test]
fn open_left_over_is_unmatched_open() {
    assert_eq!(parse_src("[[]"), Err(Error::UnmatchedOpen));
}

#[test]
fn close_left_over_is_unmatched_close() {
    assert_eq!(parse_src("[]]"), Err(Error::UnmatchedClose));
}

#[test]
fn open_after_increment_is_unmatched_open() {
    assert_eq!(parse_src("+[+"), Err(Error::UnmatchedOpen));
}

#[test]
fn stray_close_wins_over_open_left_over() {
    assert_eq!(parse_src("]["), Err(Error::UnmatchedClose));
    assert_eq!(parse_src("[]]["), Err(Error::UnmatchedClose));
    assert_eq!(parse_src("[+]-]+[[["), Err(Error::UnmatchedClose));
}

#[test]
fn comments_do_not_repair_brackets() {
    assert_eq!(parse_src("open [ but never closed"), Err(Error::UnmatchedOpen));
    assert_eq!(parse_src("closed ] but never opened"), Err(Error::UnmatchedClose));
}

#[test]
fn every_instruction_has_its_symbol() {
    assert_eq!(Op::MovePtrRight.symbol(), '>');
    assert_eq!(Op::MovePtrLeft.symbol(), '<');
    assert_eq!(Op::IncCell.symbol(), '+');
    assert_eq!(Op::DecCell.symbol(), '-');
    assert_eq!(Op::Input.symbol(), ',');
    assert_eq!(Op::Output.symbol(), '.');
    assert_eq!(Op::LoopOpen(3).symbol(), '[');
    assert_eq!(Op::LoopClose(0).symbol(), ']');
}
