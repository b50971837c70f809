use std::collections::BTreeMap;

use network_scanner::address::ipv4;
use network_scanner::device::Device;
use network_scanner::export::{
    create_error, device_line, export_notice, export_path, export_text, header_line,
};
use network_scanner::panel::{
    cells, column_titles, copy_items, count_text, elapsed_text, empty_text, open_port_total,
    progress_part, progress_text, sort_text,
};
use network_scanner::scan::Progress;
use network_scanner::table::{matching, rows, SortBy};

#[test]
fn result_filters_match_devices_and_open_ports() {
    let mut device = Device {
        status: "Up".into(),
        ip_address: ipv4(192, 168, 1, 42),
        mac_address: "00:03:93:01:02:03".into(),
        vendor: "Apple".into(),
        open_ports: "22, 443".into(),
    };
    for query in ["apple", "192.168.1.42", "00:03:93", "443"] {
        assert!(device.matches(query, true));
    }
    assert!(!device.matches("cisco", false));
    assert_eq!(device.port_count(), 2);
    device.open_ports.clear();
    assert!(!device.matches("", true));
    assert!(device.matches("", false));
    assert_eq!(device.port_count(), 0);
}

fn device(last: u8, vendor: &str, open_ports: &str) -> Device {
    Device {
        status: "Up".into(),
        ip_address: ipv4(192, 168, 1, last),
        mac_address: "00:03:93:01:02:03".into(),
        vendor: vendor.into(),
        open_ports: open_ports.into(),
    }
}

fn devices(list: Vec<Device>) -> BTreeMap<u32, Device> {
    let mut result = BTreeMap::new();
    for device in list {
        result.insert(device.ip_address, device);
    }
    result
}

fn sample() -> BTreeMap<u32, Device> {
    devices(vec![
        device(1, "Zyxel", "80"),
        device(2, "apple", ""),
        device(3, "Apple", "22, 80, 443"),
        device(4, "Zyxel", "22"),
    ])
}

fn shown(
    devices: &BTreeMap<u32, Device>,
    search: &str,
    open_only: bool,
    sort_by: SortBy,
    descending: bool,
) -> Vec<u32> {
    rows(devices, search, open_only, sort_by, descending)
        .iter()
        .map(|device| device.ip_address & 0xFF)
        .collect()
}

#[test]
fn rows_are_ordered_as_asked() {
    let all = sample();
    assert_eq!(shown(&all, "", false, SortBy::Ip, false), vec![1, 2, 3, 4]);
    assert_eq!(shown(&all, "", false, SortBy::Ip, true), vec![4, 3, 2, 1]);
    assert_eq!(
        shown(&all, "", false, SortBy::Vendor, false),
        vec![3, 1, 4, 2]
    );
    assert_eq!(
        shown(&all, "", false, SortBy::OpenPorts, false),
        vec![2, 1, 4, 3]
    );
    assert_eq!(
        shown(&all, "", false, SortBy::OpenPorts, true),
        vec![3, 4, 1, 2]
    );
    assert_eq!(SortBy::default(), SortBy::Ip);
}

#[test]
fn rows_are_searched_without_regard_to_case_and_blanks() {
    let all = sample();
    assert_eq!(
        shown(&all, "  APPLE ", false, SortBy::Ip, false),
        vec![2, 3]
    );
    assert_eq!(shown(&all, "apple", true, SortBy::Ip, false), vec![3]);
    assert_eq!(
        shown(&all, "192.168.1.4", false, SortBy::Ip, false),
        vec![4]
    );
    assert!(shown(&all, "nothing", false, SortBy::Ip, false).is_empty());
    assert_eq!(matching(&all, "zyxel", false).len(), 2);
    assert_eq!(matching(&all, "ZYXEL", false).len(), 0);
}

#[test]
fn a_large_table_stays_in_order() {
    let mut all = BTreeMap::new();
    for index in 0..4096u32 {
        let mut one = device(1, if index % 3 == 0 { "Apple" } else { "Cisco" }, "22, 443");
        one.ip_address = ipv4(10, 0, 0, 0) + index;
        all.insert(one.ip_address, one);
    }
    let table = rows(&all, "apple", true, SortBy::Vendor, true);
    assert_eq!(table.len(), 1366);
    assert!(table
        .windows(2)
        .all(|pair| pair[0].ip_address > pair[1].ip_address));
    assert_eq!(open_port_total(&all), Some(8192));
}

#[test]
fn csv_text_is_read_back_by_a_csv_reader() {
    let all = devices(vec![
        device(1, "Quote \" and, comma", "22, 443"),
        device(2, "Line\nbreak", ""),
    ]);
    let text = export_text(&all);
    let mut reader = csv::Reader::from_reader(text.as_bytes());
    let headers = reader.headers().unwrap().clone();
    assert_eq!(headers.get(0), Some("status"));
    assert_eq!(headers.get(4), Some("open_ports"));
    let records: Vec<csv::StringRecord> =
        reader.records().map(|record| record.unwrap()).collect();
    assert_eq!(records.len(), 2);
    assert_eq!(records[0].get(1), Some("192.168.1.1"));
    assert_eq!(records[0].get(3), Some("Quote \" and, comma"));
    assert_eq!(records[0].get(4), Some("22, 443"));
    assert_eq!(records[1].get(3), Some("Line\nbreak"));
    assert_eq!(records[1].get(4), Some(""));
}

#[test]
fn csv_text_is_exactly_this() {
    let all = devices(vec![device(7, "A \"B\"", "22, 443")]);
    assert_eq!(
        export_text(&all),
        "status,ip_address,mac_address,vendor,open_ports\nUp,192.168.1.7,00:03:93:01:02:03,\"A \"\"B\"\"\",\"22, 443\"\n"
    );
    assert_eq!(export_text(&BTreeMap::new()), "");
    assert_eq!(header_line(), "status,ip_address,mac_address,vendor,open_ports\n");
    assert_eq!(
        device_line(&device(7, "Apple", "")),
        "Up,192.168.1.7,00:03:93:01:02:03,Apple,\n"
    );
}

#[test]
fn export_messages() {
    assert_eq!(export_path("  results.csv \n"), "results.csv");
    assert_eq!(
        create_error("File exists"),
        "Cannot create CSV: File exists. Choose a new filename if it already exists."
    );
    assert_eq!(
        export_notice(12, " results.csv"),
        "Exported 12 devices to  results.csv"
    );
}

#[test]
fn texts_of_the_results() {
    assert_eq!(elapsed_text(0), "0:00");
    assert_eq!(elapsed_text(65), "1:05");
    assert_eq!(elapsed_text(3599), "59:59");
    assert_eq!(elapsed_text(6000), "100:00");
    let progress = Progress {
        completed: 3,
        total: 12,
        discovery_done: false,
    };
    assert_eq!(
        progress_text(progress, true),
        "TCP probes: 3 / 12 · discovering hosts"
    );
    assert_eq!(progress_text(progress, false), "TCP probes: 3 / 12");
    assert_eq!(progress_part(progress), (3, 12));
    let none = Progress::default();
    assert_eq!(progress_part(none), (0, 1));
    assert_eq!(
        progress_part(Progress {
            discovery_done: true,
            ..none
        }),
        (1, 1)
    );
    assert_eq!(
        count_text(2, 10),
        "2 of 10 devices · Right-click a row to copy"
    );
    assert_eq!(empty_text(true, true).0, "Listening for devices…");
    assert_eq!(empty_text(true, false).0, "No devices discovered");
    assert_eq!(
        empty_text(true, false).1,
        "Choose your LAN subnet and start a scan."
    );
    assert_eq!(
        empty_text(false, true),
        (
            "No matching devices".to_string(),
            "Try another search or disable the open-port filter.".to_string()
        )
    );
    assert_eq!(sort_text(SortBy::OpenPorts), "Open port count");
    assert_eq!(column_titles()[4], "OPEN PORTS");
}

#[test]
fn cells_of_a_row() {
    assert_eq!(
        cells(&device(7, "Apple", "")),
        vec!["Up", "192.168.1.7", "00:03:93:01:02:03", "Apple", "—"]
    );
    assert_eq!(cells(&device(7, "Apple", "22"))[4], "22");
    let items = copy_items(&device(7, "Apple", "22"));
    assert_eq!(items[0].0, "Copy IP address");
    assert_eq!(items[0].1, "192.168.1.7");
    assert_eq!(items[1].1, "00:03:93:01:02:03");
    assert_eq!(items[2].1, "22");
}

#[test]
fn port_totals_are_summed() {
    assert_eq!(open_port_total(&sample()), Some(5));
    assert_eq!(open_port_total(&BTreeMap::new()), Some(0));
}

#[test]
fn a_blank_search_hides_nothing() {
    let all = sample();
    for search in ["", "   ", "\t\u{3000}\n"] {
        assert_eq!(shown(&all, search, false, SortBy::Ip, false), vec![1, 2, 3, 4]);
        assert_eq!(shown(&all, search, true, SortBy::Ip, false), vec![1, 3, 4]);
    }
}
