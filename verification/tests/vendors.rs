use network_scanner::mac::MacAddr;
use network_scanner::vendor::{lookup_vendor, parse_vendors, vendor, vendor_table, VendorTable};

#[test]
fn vendor_lookup_uses_longest_assignment_and_handles_private_macs() {
    let table = parse_vendors(
        "001122\tLarge vendor\n0011223\tMedium vendor\n001122334\tSmall vendor\n",
    );
    assert_eq!(
        lookup_vendor(MacAddr(0, 0x11, 0x22, 0x33, 0x44, 0x55), &table),
        "Small vendor"
    );
    assert_eq!(
        lookup_vendor(MacAddr(0, 0x11, 0x22, 0x3F, 0, 0), &table),
        "Medium vendor"
    );
    assert_eq!(
        lookup_vendor(MacAddr(0, 0x11, 0x22, 0x40, 0, 0), &table),
        "Large vendor"
    );
    assert_eq!(
        lookup_vendor(MacAddr(2, 0x11, 0x22, 0x33, 0, 0), &table),
        "Private MAC (vendor unavailable)"
    );
    assert_eq!(
        lookup_vendor(MacAddr(4, 0x11, 0x22, 0x33, 0, 0), &table),
        "Not in IEEE database"
    );
    assert_eq!(lookup_vendor(MacAddr::zero(), &table), "Not a device MAC");
    assert_eq!(
        lookup_vendor(MacAddr::broadcast(), &table),
        "Not a device MAC"
    );
}

const EXCERPT: &str = "# excerpt of the registry\n000393\tApple, Inc.\n0000F0\tSamsung Electronics Co., Ltd.\n";

#[test]
fn an_excerpt_of_the_registry_resolves_its_assignments() {
    let mut cache: Option<VendorTable> = None;
    assert_eq!(vendor_table(&mut cache, EXCERPT).len(), 2);
    assert_eq!(
        vendor(MacAddr(0, 3, 0x93, 1, 2, 3), &mut cache, EXCERPT),
        "Apple, Inc."
    );
    assert!(vendor(MacAddr(0, 0, 0xF0, 1, 2, 3), &mut cache, EXCERPT).contains("Samsung"));
}

#[test]
fn the_registry_is_read_once() {
    let mut cache: Option<VendorTable> = None;
    assert_eq!(
        vendor(MacAddr(0, 3, 0x93, 1, 2, 3), &mut cache, EXCERPT),
        "Apple, Inc."
    );
    assert_eq!(
        vendor(MacAddr(0, 3, 0x93, 1, 2, 3), &mut cache, "000393\tSomeone else\n"),
        "Apple, Inc."
    );
}

#[test]
fn lines_that_assign_nothing_are_skipped() {
    let table = parse_vendors(
        "#001122\tComment\n001122 no tab\n00112\tToo short\n00112233\tEight digits\nzz1122\tNo digits\n001122\t   \n",
    );
    assert_eq!(table.len(), 0);
    assert_eq!(
        lookup_vendor(MacAddr(0, 0x11, 0x22, 0, 0, 0), &table),
        "Not in IEEE database"
    );
}

#[test]
fn the_last_assignment_of_a_prefix_counts() {
    let table = parse_vendors("001122\tFirst\r\n001122\tSecond\r\n");
    assert_eq!(table.len(), 1);
    assert_eq!(
        lookup_vendor(MacAddr(0, 0x11, 0x22, 9, 9, 9), &table),
        "Second"
    );
}

#[test]
fn names_keep_their_spaces_and_tabs() {
    let table = parse_vendors("001122\t Name\twith tab ");
    assert_eq!(
        lookup_vendor(MacAddr(0, 0x11, 0x22, 9, 9, 9), &table),
        " Name\twith tab "
    );
}

#[test]
fn hardware_addresses_are_written_in_lower_case() {
    assert_eq!(
        MacAddr(0, 3, 0x93, 0xAB, 0xC, 0xFF).to_text(),
        "00:03:93:ab:0c:ff"
    );
}
