use entsoe_rs::ExtractError;
use entsoe_rs::parse_timeseries_generic;
use entsoe_rs::rows::Data;

fn period_doc(resolution: &str, start: &str, points: &[(&str, &str)]) -> String {
    let mut doc = String::new();
    doc.push_str("<?xml version=\"1.0\" encoding=\"utf-8\"?>\n<document>\n<Period>\n");
    doc.push_str(&format!("<start>{}</start>\n", start));
    doc.push_str(&format!("<resolution>{}</resolution>\n", resolution));
    for (position, value) in points {
        doc.push_str(&format!(
            "<Point><position>{}</position><price.amount>{}</price.amount></Point>\n",
            position, value
        ));
    }
    doc.push_str("</Period>\n</document>\n");
    doc
}

fn timestamps(values: &[&str]) -> Vec<Data> {
    values.iter().map(|v| Data::Timestamp(v.to_string())).collect()
}

fn decimals(values: &[&str]) -> Vec<Data> {
    values.iter().map(|v| Data::Value(v.to_string())).collect()
}

#[test]
fn test_parse_timeseries_generic() {
    let xml_text = r#"<?xml version="1.0" encoding="utf-8"?>
        <publication_marketdocument xmlns="urn:iec62325.351:tc57wg16:451-3:publicationdocument:7:3">
        <mRID>bf4445f7e6e04c849b7e0830b906fbde</mRID>
        <revisionnumber>1</revisionnumber>
        <type>A44</type>
        <sender_marketparticipant.mRID codingscheme="A01">10X1001A1001A450</sender_marketparticipant.mRID>
        <sender_marketparticipant.marketrole.type>A32</sender_marketparticipant.marketrole.type>
        <receiver_marketparticipant.mRID codingscheme="A01">10X1001A1001A450</receiver_marketparticipant.mRID>
        <receiver_marketparticipant.marketrole.type>A33</receiver_marketparticipant.marketrole.type>
        <createddatetime>2025-05-17T21:13:31Z</createddatetime>
        <period.timeInterval>
            <start>2023-12-31T23:00Z</start>
            <end>2024-01-01T23:00Z</end>
        </period.timeInterval>
        <TimeSeries>
            <mRID>1</mRID>
            <auction.type>A01</auction.type>
            <businessType>A62</businessType>
            <in_Domain.mRID codingscheme="A01">10YFR-RTE------C</in_Domain.mRID>
            <out_Domain.mRID codingscheme="A01">10YFR-RTE------C</out_Domain.mRID>
            <contract_MarketAgreement.type>A01</contract_MarketAgreement.type>
            <currency_Unit.name>EUR</currency_Unit.name>
            <price_Measure_Unit.name>MWH</price_Measure_Unit.name>
            <curveType>A03</curveType>
            <Period>
                <timeInterval>
                    <start>2023-12-31T23:00Z</start>
                    <end>2024-01-01T23:00Z</end>
                </timeInterval>
                <resolution>PT60M</resolution>
                <Point>
                    <position>1</position>
                    <price.amount>104.98</price.amount>
                </Point>
                <Point>
                    <position>2</position>
                    <price.amount>105.98</price.amount>
                </Point>
            </Period>
        </TimeSeries>
        </publication_marketdocument>
        "#;

    let result = parse_timeseries_generic(xml_text, "price.amount", "period");
    assert!(result.is_ok(), "{}", format!("Error: {:?}", result.err().unwrap()));

    let data = result.unwrap();
    assert!(
        data.contains_key("PT60M_timestamp"),
        "{}",
        format!("Keys: {:?}", data.entries)
    );
    assert!(
        data.contains_key("PT60M_value"),
        "{}",
        format!("Keys: {:?}", data.entries)
    );
    assert_eq!(
        data.get("PT60M_timestamp").unwrap(),
        &timestamps(&["2023-12-31T23:00:00Z", "2024-01-01T00:00:00Z"])
    );
    assert_eq!(
        data.get("PT60M_value").unwrap(),
        &decimals(&["104.98", "105.98"])
    );
}

#[test]
fn single_hourly_period_timestamps() {
    let doc = period_doc("PT60M", "2023-12-31T23:00Z", &[("1", "104.98"), ("2", "105.98")]);
    let data = parse_timeseries_generic(&doc, "price.amount", "Period").unwrap();
    assert_eq!(
        data.get("PT60M_timestamp").unwrap(),
        &timestamps(&["2023-12-31T23:00:00Z", "2024-01-01T00:00:00Z"])
    );
}

#[test]
fn single_hourly_period_values() {
    let doc = period_doc("PT60M", "2023-12-31T23:00Z", &[("1", "104.98"), ("2", "105.98")]);
    let data = parse_timeseries_generic(&doc, "price.amount", "Period").unwrap();
    assert_eq!(
        data.get("PT60M_value").unwrap(),
        &decimals(&["104.98", "105.98"])
    );
}

#[test]
fn rerun_yields_identical_output() {
    let doc = period_doc("PT15M", "2024-06-30T10:00Z", &[("2", "1.5"), ("1", "2.5")]);
    let first = parse_timeseries_generic(&doc, "price.amount", "Period");
    let second = parse_timeseries_generic(&doc, "price.amount", "Period");
    assert_eq!(first, second);
}

#[test]
fn document_order_kept_not_position_order() {
    let doc = period_doc("PT60M", "2024-06-30T10:00Z", &[("2", "1.5"), ("1", "2.5")]);
    let data = parse_timeseries_generic(&doc, "price.amount", "Period").unwrap();
    assert_eq!(
        data.get("PT60M_timestamp").unwrap(),
        &timestamps(&["2024-06-30T11:00:00Z", "2024-06-30T10:00:00Z"])
    );
    assert_eq!(data.get("PT60M_value").unwrap(), &decimals(&["1.5", "2.5"]));
}

#[test]
fn timestamp_and_value_columns_balanced() {
    let mut doc = String::from("<root><Period><start>2024-01-01T00:00Z</start><resolution>PT60M</resolution>");
    doc.push_str("<Point><position>1</position><price.amount>1</price.amount></Point>");
    doc.push_str("<Point><position>2</position><price.amount>2</price.amount></Point>");
    doc.push_str("<Point><position>3</position><price.amount>3</price.amount></Point></Period>");
    doc.push_str("<Period><start>2024-01-01T00:00Z</start><resolution>P1D</resolution>");
    doc.push_str("<Point><position>1</position><price.amount>4</price.amount></Point></Period></root>");
    let data = parse_timeseries_generic(&doc, "price.amount", "Period").unwrap();
    for code in ["PT60M", "P1D"] {
        let ts = data.get(&format!("{}_timestamp", code)).unwrap();
        let vals = data.get(&format!("{}_value", code)).unwrap();
        assert_eq!(ts.len(), vals.len());
    }
}

#[test]
fn point_missing_position_is_dropped() {
    let doc = r#"<?xml version="1.0"?>
        <document><Period>
        <start>2024-01-01T00:00Z</start>
        <resolution>PT60M</resolution>
        <Point><price.amount>9.9</price.amount></Point>
        <Point><position>2</position><price.amount>8.8</price.amount></Point>
        </Period></document>"#;
    let data = parse_timeseries_generic(doc, "price.amount", "Period").unwrap();
    assert_eq!(
        data.get("PT60M_timestamp").unwrap(),
        &timestamps(&["2024-01-01T01:00:00Z"])
    );
    assert_eq!(data.get("PT60M_value").unwrap(), &decimals(&["8.8"]));
}

#[test]
fn non_numeric_position_errors() {
    let doc = period_doc("PT60M", "2024-01-01T00:00Z", &[("abc", "9.9")]);
    let result = parse_timeseries_generic(&doc, "price.amount", "Period");
    assert_eq!(result, Err(ExtractError::InvalidPosition));
}

#[test]
fn non_numeric_value_errors() {
    let doc = period_doc("PT60M", "2024-01-01T00:00Z", &[("1", "12x")]);
    let result = parse_timeseries_generic(&doc, "price.amount", "Period");
    assert_eq!(result, Err(ExtractError::InvalidValue));
}

#[test]
fn malformed_start_errors() {
    let doc = period_doc("PT60M", "late evening", &[("1", "9.9")]);
    let result = parse_timeseries_generic(&doc, "price.amount", "Period");
    assert_eq!(result, Err(ExtractError::InvalidTimestamp));
}

#[test]
fn unknown_resolution_aborts_whole_call() {
    let mut doc = String::from("<root><Period><start>2024-01-01T00:00Z</start><resolution>PT60M</resolution>");
    doc.push_str("<Point><position>1</position><price.amount>1.0</price.amount></Point></Period>");
    doc.push_str("<Period><start>2024-01-01T00:00Z</start><resolution>PT45M</resolution>");
    doc.push_str("<Point><position>1</position><price.amount>2.0</price.amount></Point></Period></root>");
    let result = parse_timeseries_generic(&doc, "price.amount", "Period");
    assert_eq!(result, Err(ExtractError::UnknownResolution));
}

#[test]
fn malformed_xml_errors() {
    let result = parse_timeseries_generic("<a><b></a>", "price.amount", "Period");
    assert_eq!(result, Err(ExtractError::XmlSyntax));
}

#[test]
fn two_period_blocks_two_key_groups() {
    let mut doc = String::from("<root><Period><start>2024-01-01T00:00Z</start><resolution>PT60M</resolution>");
    doc.push_str("<Point><position>1</position><price.amount>1.1</price.amount></Point></Period>");
    doc.push_str("<Period><start>2024-02-01T00:00Z</start><resolution>PT15M</resolution>");
    doc.push_str("<Point><position>2</position><price.amount>2.2</price.amount></Point></Period></root>");
    let data = parse_timeseries_generic(&doc, "price.amount", "Period").unwrap();
    assert_eq!(
        data.get("PT60M_timestamp").unwrap(),
        &timestamps(&["2024-01-01T00:00:00Z"])
    );
    assert_eq!(data.get("PT60M_value").unwrap(), &decimals(&["1.1"]));
    assert_eq!(
        data.get("PT15M_timestamp").unwrap(),
        &timestamps(&["2024-02-01T00:15:00Z"])
    );
    assert_eq!(data.get("PT15M_value").unwrap(), &decimals(&["2.2"]));
    assert!(data.get("PT45M_timestamp").is_none());
}

#[test]
fn same_resolution_periods_share_columns() {
    let mut doc = String::from("<root><Period><start>2024-01-01T00:00Z</start><resolution>PT60M</resolution>");
    doc.push_str("<Point><position>1</position><price.amount>1.1</price.amount></Point></Period>");
    doc.push_str("<Period><start>2024-05-01T00:00Z</start><resolution>PT60M</resolution>");
    doc.push_str("<Point><position>1</position><price.amount>2.2</price.amount></Point></Period></root>");
    let data = parse_timeseries_generic(&doc, "price.amount", "Period").unwrap();
    assert_eq!(
        data.get("PT60M_timestamp").unwrap(),
        &timestamps(&["2024-01-01T00:00:00Z", "2024-05-01T00:00:00Z"])
    );
    assert_eq!(data.get("PT60M_value").unwrap(), &decimals(&["1.1", "2.2"]));
}

#[test]
fn new_period_block_discards_stale_resolution() {
    let mut doc = String::from("<root><Period><start>2024-01-01T00:00Z</start><resolution>PT60M</resolution>");
    doc.push_str("<Point><position>1</position><price.amount>1.1</price.amount></Point></Period>");
    doc.push_str("<Period><start>2024-05-01T00:00Z</start>");
    doc.push_str("<Point><position>1</position><price.amount>2.2</price.amount></Point></Period></root>");
    let data = parse_timeseries_generic(&doc, "price.amount", "Period").unwrap();
    assert_eq!(data.get("PT60M_value").unwrap(), &decimals(&["1.1"]));
}

#[test]
fn new_point_discards_stale_fields() {
    let mut doc = String::from("<root><Period><start>2024-01-01T00:00Z</start><resolution>PT60M</resolution>");
    doc.push_str("<Point><position>1</position><price.amount>1.1</price.amount></Point>");
    doc.push_str("<Point><position>2</position></Point></Period></root>");
    let data = parse_timeseries_generic(&doc, "price.amount", "Period").unwrap();
    assert_eq!(data.get("PT60M_value").unwrap(), &decimals(&["1.1"]));
    assert_eq!(data.get("PT60M_timestamp").unwrap().len(), 1);
}

#[test]
fn daily_resolution_crosses_leap_day() {
    let doc = period_doc("P1D", "2024-02-28T23:00Z", &[("1", "1"), ("2", "2"), ("3", "3")]);
    let data = parse_timeseries_generic(&doc, "price.amount", "Period").unwrap();
    assert_eq!(
        data.get("P1D_timestamp").unwrap(),
        &timestamps(&["2024-02-28T23:00:00Z", "2024-02-29T23:00:00Z", "2024-03-01T23:00:00Z"])
    );
}

#[test]
fn weekly_resolution_steps_seven_days() {
    let doc = period_doc("P7D", "2024-01-01T00:00Z", &[("2", "1")]);
    let data = parse_timeseries_generic(&doc, "price.amount", "Period").unwrap();
    assert_eq!(
        data.get("P7D_timestamp").unwrap(),
        &timestamps(&["2024-01-08T00:00:00Z"])
    );
}

#[test]
fn monthly_resolution_clamps_to_month_end() {
    let doc = period_doc("P1M", "2024-01-31T00:00Z", &[("1", "1"), ("2", "2")]);
    let data = parse_timeseries_generic(&doc, "price.amount", "Period").unwrap();
    assert_eq!(
        data.get("P1M_timestamp").unwrap(),
        &timestamps(&["2024-01-31T00:00:00Z", "2024-02-29T00:00:00Z"])
    );
}

#[test]
fn yearly_resolution_steps_calendar_years() {
    let doc = period_doc("P1Y", "2023-06-01T00:00Z", &[("3", "1")]);
    let data = parse_timeseries_generic(&doc, "price.amount", "Period").unwrap();
    assert_eq!(
        data.get("P1Y_timestamp").unwrap(),
        &timestamps(&["2025-06-01T00:00:00Z"])
    );
}

#[test]
fn minute_resolution_first_position() {
    let doc = period_doc("PT1M", "2024-01-01T00:00Z", &[("5", "1")]);
    let data = parse_timeseries_generic(&doc, "price.amount", "Period").unwrap();
    assert_eq!(
        data.get("PT1M_timestamp").unwrap(),
        &timestamps(&["2024-01-01T00:04:00Z"])
    );
}

#[test]
fn offset_start_lands_on_utc_instant() {
    let doc = period_doc("PT60M", "2023-12-31T23:00+01:00", &[("1", "1")]);
    let data = parse_timeseries_generic(&doc, "price.amount", "Period").unwrap();
    assert_eq!(
        data.get("PT60M_timestamp").unwrap(),
        &timestamps(&["2023-12-31T22:00:00Z"])
    );
}

#[test]
fn exponent_value_text_is_accepted() {
    let doc = period_doc("PT60M", "2024-01-01T00:00Z", &[("1", "1e3")]);
    let data = parse_timeseries_generic(&doc, "price.amount", "Period").unwrap();
    assert_eq!(data.get("PT60M_value").unwrap(), &decimals(&["1e3"]));
}

#[test]
fn custom_value_tag_is_honored() {
    let doc = r#"<root><Period><start>2024-01-01T00:00Z</start><resolution>PT60M</resolution>
        <Point><position>1</position><quantity>500</quantity></Point>
        </Period></root>"#;
    let data = parse_timeseries_generic(doc, "quantity", "Period").unwrap();
    assert_eq!(data.get("PT60M_value").unwrap(), &decimals(&["500"]));
}

#[test]
fn empty_document_yields_no_columns() {
    let data = parse_timeseries_generic("<root></root>", "price.amount", "Period").unwrap();
    assert!(data.entries.is_empty());
}
