use dp_regression::ingest::{ingest, IngestionError};

#[test]
fn ingest_reads_two_columns() {
    assert_eq!(
        ingest(b"1.0,2.0\n2.0,4.0\n3.0,6.0\n"),
        Ok((vec![10000, 20000, 30000], vec![20000, 40000, 60000]))
    );
}

#[test]
fn ingest_reads_a_last_line_without_line_end() {
    assert_eq!(ingest(b"1,2\n3,4"), Ok((vec![10000, 30000], vec![20000, 40000])));
}

#[test]
fn ingest_of_nothing() {
    assert_eq!(ingest(b""), Ok((vec![], vec![])));
    assert_eq!(ingest(b"\n\n\n"), Ok((vec![], vec![])));
}

#[test]
fn ingest_skips_rows_with_a_missing_column() {
    assert_eq!(ingest(b"1,2\n5\n3,4\n"), Ok((vec![10000, 30000], vec![20000, 40000])));
    assert_eq!(ingest(b"1,2\n5,\n,6\n , \n3,4\n"), Ok((vec![10000, 30000], vec![20000, 40000])));
    assert_eq!(ingest(b"abc\n1,2\n"), Ok((vec![10000], vec![20000])));
}

#[test]
fn ingest_skips_rows_with_too_many_columns() {
    assert_eq!(ingest(b"1,2,3\n3,4\n"), Ok((vec![30000], vec![40000])));
    assert_eq!(ingest(b"x,y,z\n3,4\n"), Ok((vec![30000], vec![40000])));
}

#[test]
fn ingest_stops_at_a_column_that_is_no_number() {
    assert_eq!(ingest(b"1,2\n3,four\n5,6\n"), Err(IngestionError::Unparsable { line: 2 }));
    assert_eq!(ingest(b"x,2\n"), Err(IngestionError::Unparsable { line: 1 }));
    assert_eq!(ingest(b"1,2\n\n\n1.5.2,3\n"), Err(IngestionError::Unparsable { line: 4 }));
}

#[test]
fn ingest_counts_skipped_lines() {
    assert_eq!(ingest(b"a\nb\nc,d\n"), Err(IngestionError::Unparsable { line: 3 }));
}

#[test]
fn ingest_reads_signs_and_decimals() {
    assert_eq!(
        ingest(b"-1.5,+2.25\n0.0001,-0.0001\n.5,5.\n007,-0\n"),
        Ok((vec![-15000, 1, 5000, 70000], vec![22500, -1, 50000, 0]))
    );
}

#[test]
fn ingest_cuts_decimals_after_the_fourth() {
    assert_eq!(ingest(b"1.23456789,-1.99999\n"), Ok((vec![12345], vec![-19999])));
    assert_eq!(ingest(b"0.00009,0.1\n"), Ok((vec![0], vec![1000])));
}

#[test]
fn ingest_trims_blanks_around_a_column() {
    assert_eq!(ingest(b" 1.5 ,\t2 \r\n3 , 4\r\n"), Ok((vec![15000, 30000], vec![20000, 40000])));
}

#[test]
fn ingest_refuses_what_is_no_decimal_number() {
    for text in [
        &b"1e5,2\n"[..],
        b"1,2 3\n",
        b"--1,2\n",
        b"1,+\n",
        b"1,.\n",
        b"1,-.\n",
        b"1,0x10\n",
        b"1,1 .5\n",
        b"1,NaN\n",
        b"1,1-\n",
    ] {
        assert_eq!(ingest(text), Err(IngestionError::Unparsable { line: 1 }));
    }
}

#[test]
fn ingest_holds_the_largest_values() {
    assert_eq!(
        ingest(b"922337203685477.5807,-922337203685477.5808\n"),
        Ok((vec![i64::MAX], vec![i64::MIN]))
    );
}

#[test]
fn ingest_refuses_values_that_do_not_fit() {
    assert_eq!(
        ingest(b"922337203685477.5808,1\n"),
        Err(IngestionError::Unparsable { line: 1 })
    );
    assert_eq!(
        ingest(b"1,-922337203685477.5809\n"),
        Err(IngestionError::Unparsable { line: 1 })
    );
    assert_eq!(
        ingest(b"1,1000000000000000\n"),
        Err(IngestionError::Unparsable { line: 1 })
    );
    assert_eq!(
        ingest(b"99999999999999999999999999999999999999999999,1\n"),
        Err(IngestionError::Unparsable { line: 1 })
    );
}

#[test]
fn ingest_gives_columns_of_one_length() {
    let (xs, ys) = ingest(b"1,2\n\n3,4\n5\n6,7\n").unwrap();
    assert_eq!(xs.len(), ys.len());
    assert_eq!(xs, vec![10000, 30000, 60000]);
    assert_eq!(ys, vec![20000, 40000, 70000]);
}
