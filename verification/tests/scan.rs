use owfs::scan::candidates;
use owfs::{scan, Device, Error, Request, ScanOptions};
use std::collections::HashMap;

type Bus = HashMap<&'static str, Result<&'static str, isize>>;

/// Runs a scan against `bus`; a path that `bus` does not hold fails with -1.
fn run(options: ScanOptions, bus: &Bus) -> (Result<Vec<Device>, Error>, Vec<String>) {
    let mut scan = scan(options);
    let mut reads = Vec::new();
    loop {
        match scan.request() {
            Some(Request::Read { path }) => {
                let answer = match bus.get(path.as_str()) {
                    Some(Ok(text)) => Ok(*text),
                    Some(Err(code)) => Err(Error::new(*code)),
                    None => Err(Error::new(-1)),
                };
                reads.push(path);
                scan.advance(answer);
            },
            Some(other) => panic!("a scan only reads, but asked for {:?}", other),
            None => break,
        }
    }
    (scan.outcome().expect("the scan is over"), reads)
}

fn paths(devices: &[Device]) -> Vec<&str> {
    devices.iter().map(|d| d.path()).collect()
}

fn small_bus() -> Bus {
    let mut bus = Bus::new();
    bus.insert("/uncached/", Ok("10.AAAA/,statistics/,1F.BBBB/,settings"));
    bus.insert("10.AAAA", Ok("temperature,type,family,errata/"));
    bus.insert("10.AAAA/type", Ok("DS18S20"));
    bus.insert("1F.BBBB", Ok("main/,aux/,type,family"));
    bus.insert("1F.BBBB/type", Ok("DS2409"));
    bus
}

#[test]
fn candidates_are_hex_entries_that_end_in_a_slash() {
    assert_eq!(
        candidates("10.AAAA/,statistics/,1F.BBBB/,settings"),
        vec!["10.AAAA", "1F.BBBB"]
    );
}

#[test]
fn candidates_on_the_edges() {
    assert!(candidates("").is_empty());
    assert!(candidates("/").is_empty());
    assert!(candidates(",,").is_empty());
    assert!(candidates("10.AAAA").is_empty());
    assert!(candidates("a0.AAAA/,f1.BBBB/,G1.CCCC/").is_empty());
    assert!(candidates("alarm/,simultaneous/,structure/,system/,uncached/").is_empty());
    assert_eq!(candidates("0/,9/,A/,F/"), vec!["0", "9", "A", "F"]);
    assert_eq!(candidates("10.AAAA//"), vec!["10.AAAA/"]);
    assert_eq!(candidates("bus.0/,10.AAAA/"), vec!["10.AAAA"]);
    assert_eq!(candidates("10.AAAA/,10.AAAA/"), vec!["10.AAAA", "10.AAAA"]);
    assert_eq!(candidates("B\u{e9}/"), vec!["B\u{e9}"]);
}

#[test]
fn scan_asks_for_the_root_first() {
    let scan = scan(ScanOptions::new());
    assert_eq!(scan.request(), Some(Request::Read { path: String::from("/uncached/") }));
    assert!(scan.outcome().is_none());
}

#[test]
fn scan_considers_only_device_entries() {
    let (found, reads) = run(ScanOptions::new(), &small_bus());
    assert_eq!(reads, vec!["/uncached/", "10.AAAA", "1F.BBBB"]);
    let found = found.unwrap();
    assert_eq!(paths(&found), vec!["10.AAAA", "1F.BBBB"]);
}

#[test]
fn found_devices_are_loaded() {
    let (found, _) = run(ScanOptions::new(), &small_bus());
    let found = found.unwrap();
    assert!(found[0].has("temperature"));
    assert!(found[0].has("type"));
    assert!(!found[0].has("errata"));
    assert_eq!(found[0].attrs().len(), 3);
    assert!(found[1].has("family"));
    assert!(!found[1].has("main"));
    assert_eq!(found[1].attrs().len(), 2);
}

#[test]
fn failed_root_read_fails_the_scan() {
    let mut bus = small_bus();
    bus.insert("/uncached/", Err(-13));
    let (found, reads) = run(ScanOptions::new(), &bus);
    assert_eq!(found.err(), Some(Error::new(-13)));
    assert_eq!(reads, vec!["/uncached/"]);
}

#[test]
fn device_that_fails_to_load_is_left_out() {
    let mut bus = small_bus();
    bus.insert("10.AAAA", Err(-5));
    let (found, reads) = run(ScanOptions::new(), &bus);
    assert_eq!(reads, vec!["/uncached/", "10.AAAA", "1F.BBBB"]);
    assert_eq!(paths(&found.unwrap()), vec!["1F.BBBB"]);
}

#[test]
fn scan_with_no_device_that_loads_finds_nothing() {
    let mut bus = small_bus();
    bus.insert("10.AAAA", Err(-5));
    bus.insert("1F.BBBB", Err(-6));
    let (found, _) = run(ScanOptions::new(), &bus);
    assert!(found.unwrap().is_empty());
}

#[test]
fn scan_of_an_empty_bus() {
    let mut bus = Bus::new();
    bus.insert("/uncached/", Ok(""));
    let (found, reads) = run(ScanOptions::new(), &bus);
    assert!(found.unwrap().is_empty());
    assert_eq!(reads, vec!["/uncached/"]);
}

#[test]
fn scan_by_type_reads_each_type() {
    let types = ["DS2409"];
    let (found, reads) = run(ScanOptions::new().types(&types), &small_bus());
    assert_eq!(reads, vec!["/uncached/", "10.AAAA", "10.AAAA/type", "1F.BBBB", "1F.BBBB/type"]);
    assert_eq!(paths(&found.unwrap()), vec!["1F.BBBB"]);
}

#[test]
fn device_whose_type_cannot_be_read_is_left_out() {
    let types = ["DS18S20", "DS2409"];
    let mut bus = small_bus();
    bus.insert("10.AAAA/type", Err(-9));
    let (found, reads) = run(ScanOptions::new().types(&types), &bus);
    assert_eq!(reads, vec!["/uncached/", "10.AAAA", "10.AAAA/type", "1F.BBBB", "1F.BBBB/type"]);
    assert_eq!(paths(&found.unwrap()), vec!["1F.BBBB"]);
}

#[test]
fn type_is_not_read_for_a_device_that_fails_to_load() {
    let types = ["DS18S20", "DS2409"];
    let mut bus = small_bus();
    bus.insert("10.AAAA", Err(-5));
    let (found, reads) = run(ScanOptions::new().types(&types), &bus);
    assert_eq!(reads, vec!["/uncached/", "10.AAAA", "1F.BBBB", "1F.BBBB/type"]);
    assert_eq!(paths(&found.unwrap()), vec!["1F.BBBB"]);
}

#[test]
fn scan_by_attributes_reads_no_type() {
    let all = ["temperature"];
    let (found, reads) = run(ScanOptions::new().attrs_all(&all), &small_bus());
    assert_eq!(reads, vec!["/uncached/", "10.AAAA", "1F.BBBB"]);
    assert_eq!(paths(&found.unwrap()), vec!["10.AAAA"]);
}

#[test]
fn scan_by_any_attribute() {
    let any = ["temperature", "family"];
    let (found, _) = run(ScanOptions::new().attrs_any(&any), &small_bus());
    assert_eq!(paths(&found.unwrap()), vec!["10.AAAA", "1F.BBBB"]);
    let any = ["PIO"];
    let (found, _) = run(ScanOptions::new().attrs_any(&any), &small_bus());
    assert!(found.unwrap().is_empty());
}

#[test]
fn scan_by_type_and_attributes() {
    let types = ["DS18S20", "DS2409"];
    let all = ["family", "type"];
    let any = ["temperature"];
    let options = ScanOptions::new().types(&types).attrs_all(&all).attrs_any(&any);
    let (found, _) = run(options, &small_bus());
    assert_eq!(paths(&found.unwrap()), vec!["10.AAAA"]);
}

#[test]
fn scan_keeps_the_order_of_the_listing() {
    let mut bus = Bus::new();
    bus.insert("/uncached/", Ok("28.FF00/,10.0001/,alarm/,1F.8000/,05.7777/"));
    bus.insert("28.FF00", Ok("a"));
    bus.insert("10.0001", Ok("a"));
    bus.insert("1F.8000", Ok("b"));
    bus.insert("05.7777", Ok("a"));
    let all = ["a"];
    let (found, reads) = run(ScanOptions::new().attrs_all(&all), &bus);
    assert_eq!(reads, vec!["/uncached/", "28.FF00", "10.0001", "1F.8000", "05.7777"]);
    assert_eq!(paths(&found.unwrap()), vec!["28.FF00", "10.0001", "05.7777"]);
}

#[test]
fn scan_that_is_over_stays_over() {
    let mut bus = Bus::new();
    bus.insert("/uncached/", Ok("settings"));
    let mut scan = scan(ScanOptions::new());
    scan.advance(Ok("settings"));
    assert_eq!(scan.request(), None);
    scan.advance(Ok("10.AAAA/"));
    scan.advance(Err(Error::new(-1)));
    assert_eq!(scan.request(), None);
    assert!(scan.outcome().unwrap().unwrap().is_empty());
}

#[test]
fn failed_scan_stays_failed() {
    let mut scan = scan(ScanOptions::new());
    scan.advance(Err(Error::new(-13)));
    assert_eq!(scan.request(), None);
    scan.advance(Ok("10.AAAA/"));
    assert_eq!(scan.request(), None);
    assert_eq!(scan.outcome().unwrap().err(), Some(Error::new(-13)));
}

#[test]
fn outcome_is_not_there_before_the_end() {
    let mut scan = scan(ScanOptions::new());
    scan.advance(Ok("10.AAAA/"));
    assert_eq!(scan.request(), Some(Request::Read { path: String::from("10.AAAA") }));
    assert!(scan.outcome().is_none());
    let types = ["DS18S20"];
    let mut scan = owfs::scan(ScanOptions::new().types(&types));
    scan.advance(Ok("10.AAAA/"));
    scan.advance(Ok("temperature"));
    assert_eq!(scan.request(), Some(Request::Read { path: String::from("10.AAAA/type") }));
    assert!(scan.outcome().is_none());
}
