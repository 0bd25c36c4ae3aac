use std::io::Write;

use csv_snake::pipeline::snake_case_csv;
use csv_snake::pipeline::transform_records;
use csv_snake::pipeline::PipelineError;

#[test]
fn header_row_is_converted() {
    let out = snake_case_csv(b"FirstName,LastName,Age\n", b',').unwrap();
    assert_eq!(out, b"first_name,last_name,age\n".to_vec());
}

#[test]
fn single_acronym_header() {
    let out = snake_case_csv(b"HTTPStatusCode\n", b',').unwrap();
    assert_eq!(out, b"http_status_code\n".to_vec());
}

#[test]
fn header_separators_are_collapsed() {
    let out = snake_case_csv(b" userID , user-Email \n", b',').unwrap();
    assert_eq!(out, b"user_id,user_email\n".to_vec());
}

#[test]
fn header_only_stream_yields_one_row() {
    let out = snake_case_csv(b"FirstName,Age\n", b',').unwrap();
    let rows = out.split(|&b| b == b'\n').filter(|r| !r.is_empty()).count();
    assert_eq!(rows, 1);
    assert_eq!(out, b"first_name,age\n".to_vec());
}

#[test]
fn empty_stream_yields_empty_output() {
    let out = snake_case_csv(b"", b',').unwrap();
    assert_eq!(out, Vec::<u8>::new());
}

#[test]
fn data_rows_pass_through_unchanged() {
    let out = snake_case_csv(b"Name,Comment\nJohnDoe,Hello World\nBobX,--A--\n", b',').unwrap();
    assert_eq!(out, b"name,comment\nJohnDoe,Hello World\nBobX,--A--\n".to_vec());
}

#[test]
fn record_and_field_counts_are_kept() {
    let input = b"ColA,ColB,ColC\n1,2,3\nx,y,z\n";
    let out = snake_case_csv(input, b',').unwrap();
    let rows: Vec<&[u8]> = out.split(|&b| b == b'\n').filter(|r| !r.is_empty()).collect();
    assert_eq!(rows.len(), 3);
    for row in rows {
        assert_eq!(row.split(|&b| b == b',').count(), 3);
    }
}

#[test]
fn semicolon_delimiter_is_respected() {
    let out = snake_case_csv(b"FirstName;LastName\na;b\n", b';').unwrap();
    assert_eq!(out, b"first_name;last_name\na;b\n".to_vec());
}

#[test]
fn quoted_fields_are_parsed() {
    let out = snake_case_csv(b"\"First Name\",Rest\n\"a,b\",c\n", b',').unwrap();
    assert_eq!(out, b"first_name,rest\n\"a,b\",c\n".to_vec());
}

#[test]
fn unequal_field_counts_are_a_source_error() {
    let err = snake_case_csv(b"a,b\nc\n", b',').unwrap_err();
    assert!(matches!(err, PipelineError::Source(_)));
}

#[test]
fn tab_delimited_output_is_column_aligned() {
    let input = b"firstName\tage\nJonathanQ\t3\nz\t41\n";
    let out = snake_case_csv(input, b'\t').unwrap();

    // what the aligning writer stack emits for the converted records
    let mut wtr = csv::WriterBuilder::new()
        .delimiter(b'\t')
        .from_writer(tabwriter::TabWriter::new(Vec::new()));
    wtr.write_record(&["first_name", "age"]).unwrap();
    wtr.write_record(&["JonathanQ", "3"]).unwrap();
    wtr.write_record(&["z", "41"]).unwrap();
    let mut tw = wtr.into_inner().unwrap();
    tw.flush().unwrap();
    let expected = tw.into_inner().unwrap();

    assert_eq!(out, expected);
    // the tabs were replaced by space padding up to the widest first column
    let rows: Vec<&[u8]> = out.split(|&b| b == b'\n').filter(|r| !r.is_empty()).collect();
    assert_eq!(rows.len(), 3);
    assert!(rows.iter().all(|r| !r.contains(&b'\t')));
    assert!(rows.iter().all(|r| r.windows(2).any(|w| w == b"  ")));
}

#[test]
fn transform_converts_only_the_first_record() {
    let records: Vec<Vec<Vec<u8>>> = vec![
        vec![b"FirstName".to_vec(), b"LastName".to_vec()],
        vec![b"JohnDoe".to_vec(), b"SmithX".to_vec()],
        vec![b"--".to_vec(), b"MORE".to_vec()],
    ];
    let out = transform_records(&records);
    assert_eq!(out.len(), records.len());
    for (o, r) in out.iter().zip(records.iter()) {
        assert_eq!(o.len(), r.len());
    }
    assert_eq!(out[0], vec![b"first_name".to_vec(), b"last_name".to_vec()]);
    assert_eq!(out[1], records[1]);
    assert_eq!(out[2], records[2]);
}

#[test]
fn transform_of_no_records_is_empty() {
    let records: Vec<Vec<Vec<u8>>> = Vec::new();
    let out = transform_records(&records);
    assert!(out.is_empty());
}
