use qaid::domain::report::{IssueLog, ReportError, ReportInfo};

fn info(r: usize, c: usize, ctx: &str) -> ReportInfo {
    ReportInfo::new((r, c), (r, c), String::new(), ctx.to_owned())
}

#[test]
fn issues_are_grouped_by_kind_in_order() {
    let mut log = IssueLog::new();
    assert_eq!(log.len(), 0);
    assert!(log.get(&ReportError::EmptyCell).is_none());

    log.add_issue(ReportError::EmptyCell, info(2, 2, "a"));
    log.add_issue(ReportError::MergedCells, info(1, 0, "b"));
    log.add_issue(ReportError::EmptyCell, info(5, 1, "c"));
    log.add_issue(ReportError::CustomRule("r1".to_owned()), info(0, 0, "d"));

    assert_eq!(log.len(), 3);
    let empty = log.get(&ReportError::EmptyCell).unwrap();
    assert_eq!(empty.len(), 2);
    assert_eq!(empty[0].start, (2, 2));
    assert_eq!(empty[1].start, (5, 1));
    assert_eq!(log.get(&ReportError::MergedCells).unwrap().len(), 1);
    assert_eq!(log.get(&ReportError::CustomRule("r1".to_owned())).unwrap()[0].context, "d");
    assert!(log.get(&ReportError::CustomRule("r2".to_owned())).is_none());
    assert_eq!(
        log.kinds(),
        vec![ReportError::EmptyCell, ReportError::MergedCells, ReportError::CustomRule("r1".to_owned())]
    );
}

#[test]
fn add_all_records_in_order() {
    let mut log = IssueLog::new();
    log.add_all(vec![
        (ReportError::FailedToParse, info(1, 3, "x")),
        (ReportError::FailedToParse, info(2, 3, "y")),
    ]);
    let parse = log.get(&ReportError::FailedToParse).unwrap();
    assert_eq!(parse.len(), 2);
    assert_eq!(parse[0].start, (1, 3));
    assert_eq!(parse[1].start, (2, 3));
}
