use port_scanner::report::format_port_line;
use port_scanner::report::sort_ports;

#[test]
fn sorts_arrival_order_ascending() {
    let collected: Vec<u16> = vec![80, 22];
    assert_eq!(sort_ports(&collected), vec![22, 80]);
    let collected: Vec<u16> = vec![443, 22, 8080, 80];
    assert_eq!(sort_ports(&collected), vec![22, 80, 443, 8080]);
}

#[test]
fn keeps_duplicates_exactly() {
    let collected: Vec<u16> = vec![5, 3, 5, 1, 3];
    assert_eq!(sort_ports(&collected), vec![1, 3, 3, 5, 5]);
}

#[test]
fn empty_input_gives_empty_report() {
    assert_eq!(sort_ports(&Vec::new()), Vec::<u16>::new());
}

#[test]
fn sorting_a_sorted_report_changes_nothing() {
    let sorted: Vec<u16> = vec![22, 80, 443];
    assert_eq!(sort_ports(&sorted), sorted);
    let once = sort_ports(&vec![9, 2, 9, 4]);
    let twice = sort_ports(&once);
    assert_eq!(once, twice);
}

#[test]
fn single_element_unchanged() {
    assert_eq!(sort_ports(&vec![7]), vec![7]);
}

#[test]
fn extremes_of_the_port_space() {
    let collected: Vec<u16> = vec![65535, 0, 1, 65534];
    assert_eq!(sort_ports(&collected), vec![0, 1, 65534, 65535]);
}

#[test]
fn report_lines_name_the_port() {
    assert_eq!(format_port_line(22), "22 is open");
    assert_eq!(format_port_line(80), "80 is open");
    assert_eq!(format_port_line(0), "0 is open");
    assert_eq!(format_port_line(7), "7 is open");
    assert_eq!(format_port_line(65535), "65535 is open");
    assert_eq!(format_port_line(1000), "1000 is open");
}

#[test]
fn report_lines_match_display_formatting() {
    for port in [0u16, 9, 10, 99, 100, 1234, 60000, 65535] {
        assert_eq!(format_port_line(port), format!("{port} is open"));
    }
}
