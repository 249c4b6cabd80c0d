use atlas_billing::invoice::{
    aggregate, hourly_unit, key_string, labels, latest_end_date, project, rate_basis, Aggregation,
    Compressed, Data, LineItem, RateBasis, TagEntry, Tags,
};

fn item(cluster: Option<&str>, sku: &str, end: &str, cents: u64, unit: &str) -> LineItem {
    LineItem {
        cluster_name: cluster.map(|c| c.to_string()),
        created: "2023-05-01T00:00:00Z".to_string(),
        end_date: end.to_string(),
        group_name: Some("group".to_string()),
        sku: sku.to_string(),
        start_date: "2023-05-01T00:00:00Z".to_string(),
        tags: Tags::Absent,
        total_price_cents: cents,
        unit: unit.to_string(),
    }
}

fn invoice(items: Vec<LineItem>) -> Data {
    Data {
        amount_billed_cents: 0,
        amount_paid_cents: 0,
        created: "2023-05-01T00:00:00Z".to_string(),
        credits_cents: 0,
        end_date: "2023-06-01T00:00:00Z".to_string(),
        id: "inv".to_string(),
        line_items: items,
    }
}

fn row<'a>(view: &'a [Compressed], key: &str) -> &'a Compressed {
    view.iter().find(|r| r.key == key).expect("row")
}

const DAY1: &str = "2023-05-02T00:00:00Z";
const DAY2: &str = "2023-05-03T00:00:00Z";

#[test]
fn empty_invoice_gives_empty_views() {
    let agg: Aggregation = aggregate(&invoice(vec![]));
    assert!(agg.total.is_empty());
    assert!(agg.rate.is_empty());
    assert!(agg.current_date.is_none());
}

#[test]
fn total_view_sums_cents_of_equal_keys() {
    let data = invoice(vec![
        item(Some("A"), "COMPUTE", DAY1, 10, "server hours"),
        item(Some("A"), "COMPUTE", DAY2, 20, "server hours"),
        item(Some("B"), "COMPUTE", DAY2, 5, "server hours"),
        item(Some("A"), "COMPUTE", DAY2, 30, "server hours"),
    ]);
    let agg = aggregate(&data);
    assert_eq!(agg.total.len(), 2);
    let a = row(&agg.total, "A_COMPUTE");
    assert_eq!(a.total_price_cents, 60);
    assert_eq!(a.sources, vec![0, 1, 3]);
    let b = row(&agg.total, "B_COMPUTE");
    assert_eq!(b.total_price_cents, 5);
    assert_eq!(b.sources, vec![2]);
}

#[test]
fn quantity_sum_follows_sources() {
    let data = invoice(vec![
        item(Some("A"), "DISK", DAY1, 1, "GB hours"),
        item(Some("A"), "DISK", DAY2, 2, "GB hours"),
    ]);
    let quantities = [1.5_f64, 2.25_f64];
    let agg = aggregate(&data);
    let a = row(&agg.total, "A_DISK");
    let quantity: f64 = a.sources.iter().map(|i| quantities[*i]).sum();
    assert_eq!(quantity, 3.75);
}

#[test]
fn rate_view_takes_only_latest_end_date() {
    let data = invoice(vec![
        item(Some("A"), "COMPUTE", DAY2, 20, "server hours"),
        item(Some("A"), "COMPUTE", DAY1, 10, "server hours"),
        item(None, "SUPPORT", DAY1, 7, "daily"),
        item(Some("A"), "COMPUTE", DAY2, 30, "server hours"),
    ]);
    let agg = aggregate(&data);
    assert_eq!(agg.current_date.as_deref(), Some(DAY2));
    assert_eq!(agg.rate.len(), 1);
    let a = row(&agg.rate, "A_COMPUTE");
    assert_eq!(a.sources, vec![0, 3]);
    assert_eq!(a.total_price_cents, 50);
    assert!(agg.rate.iter().all(|r| r.key != "SUPPORT"));
    assert_eq!(row(&agg.total, "SUPPORT").total_price_cents, 7);
}

#[test]
fn storage_in_two_regions_is_merged() {
    let data = invoice(vec![
        item(Some("A"), "STORAGE", DAY2, 100, "GB hours"),
        item(Some("A"), "STORAGE", DAY2, 50, "GB hours"),
    ]);
    let unit_prices = [0.25_f64, 0.5_f64];
    let agg = aggregate(&data);
    let total = row(&agg.total, "A_STORAGE");
    assert_eq!(total.total_price_cents, 150);
    let rate = row(&agg.rate, "A_STORAGE");
    let unit_price: f64 = rate.sources.iter().map(|i| unit_prices[*i]).sum();
    assert_eq!(unit_price, 0.75);
    assert!(matches!(rate_basis(&data, &agg, 0), RateBasis::Hourly));
}

#[test]
fn daily_unit_rate_uses_total_cents() {
    let data = invoice(vec![item(None, "BACKUP", DAY2, 2400, "daily")]);
    let quantity = 10.0_f64;
    let agg = aggregate(&data);
    match rate_basis(&data, &agg, 0) {
        RateBasis::Daily { total_cents } => {
            assert_eq!(total_cents, 2400);
            let rate = total_cents as f64 / quantity / 100.0 / 24.0;
            assert!((rate - 0.1).abs() < 1e-12);
        }
        RateBasis::Hourly => panic!("daily unit read as hourly"),
    }
}

#[test]
fn daily_rate_takes_cents_of_whole_total_view() {
    let data = invoice(vec![
        item(None, "BACKUP", DAY1, 1000, "daily"),
        item(None, "BACKUP", DAY2, 2400, "daily"),
    ]);
    let agg = aggregate(&data);
    assert!(matches!(rate_basis(&data, &agg, 0), RateBasis::Daily { total_cents: 3400 }));
}

#[test]
fn hourly_units() {
    assert!(hourly_unit(&"GB hours".to_string()));
    assert!(hourly_unit(&"server hours".to_string()));
    assert!(!hourly_unit(&"days".to_string()));
    assert!(!hourly_unit(&"gb hours".to_string()));
}

#[test]
fn grouping_key_with_and_without_cluster() {
    assert_eq!(key_string(&item(Some("A"), "STORAGE", DAY1, 0, "x")), "A_STORAGE");
    assert_eq!(key_string(&item(None, "STORAGE", DAY1, 0, "x")), "STORAGE");
}

#[test]
fn latest_end_date_is_lexicographic_max() {
    let items = vec![
        item(None, "X", "2023-05-10T00:00:00Z", 0, "x"),
        item(None, "X", "2023-05-09T00:00:00Z", 0, "x"),
        item(None, "X", "2023-05-11T00:00:00Z", 0, "x"),
        item(None, "X", "2023-05-02T00:00:00Z", 0, "x"),
    ];
    assert_eq!(latest_end_date(&items).as_deref(), Some("2023-05-11T00:00:00Z"));
    assert_eq!(latest_end_date(&vec![]), None);
}

fn tags(entries: Vec<(&str, Vec<&str>)>) -> Tags {
    Tags::Present(
        entries
            .into_iter()
            .map(|(k, v)| TagEntry {
                key: k.to_string(),
                values: v.into_iter().map(|s| s.to_string()).collect(),
            })
            .collect(),
    )
}

#[test]
fn project_label_is_first_value() {
    assert_eq!(project(&tags(vec![("team", vec!["t"]), ("project", vec!["p1", "p2"])])), "p1");
    assert_eq!(project(&tags(vec![("project", vec![])])), "");
    assert_eq!(project(&tags(vec![("team", vec!["t"])])), "");
    assert_eq!(project(&Tags::Null), "");
    assert_eq!(project(&Tags::Absent), "");
}

#[test]
fn labels_default_to_empty() {
    let mut it = item(None, "SKU", DAY1, 0, "x");
    it.group_name = None;
    it.tags = tags(vec![("project", vec!["billing"])]);
    let l = labels(&it);
    assert_eq!(l.cluster_name, "");
    assert_eq!(l.group_name, "");
    assert_eq!(l.sku, "SKU");
    assert_eq!(l.project, "billing");
}
