use yellowstone_faithful_car_source::error::CarSourceError;
use yellowstone_faithful_car_source::source::{
    aria2c_args, download_step, epoch_file_name, epoch_url, epochs_to_stream, missing_file_error, CarScan, DownloadStep,
    OldFaithfulCarConfig,
};

fn config(epochs: Vec<u64>) -> OldFaithfulCarConfig {
    OldFaithfulCarConfig {
        data_dir: "./old-faithful-car".to_string(),
        epochs,
        max_blocks: None,
        max_transactions: None,
        skip_download: false,
    }
}

#[test]
fn epoch_file_names_and_urls() {
    assert_eq!(epoch_file_name(39), "epoch-39.car");
    assert_eq!(epoch_file_name(0), "epoch-0.car");
    assert_eq!(epoch_file_name(u64::MAX), format!("epoch-{}.car", u64::MAX));
    assert_eq!(epoch_url(39), "https://files.old-faithful.net/39/epoch-39.car");
    assert_eq!(epoch_url(1000), "https://files.old-faithful.net/1000/epoch-1000.car");
}

#[test]
fn no_epochs_is_an_error() {
    match epochs_to_stream(&config(vec![])) {
        Err(CarSourceError::DownloadFailed(m)) => assert_eq!(m, "no epochs provided"),
        _ => panic!("expected a download failure"),
    }
    assert_eq!(epochs_to_stream(&config(vec![39, 40])).unwrap(), vec![39, 40]);
}

#[test]
fn download_decisions() {
    assert_eq!(download_step(true, true), DownloadStep::UseCached);
    assert_eq!(download_step(true, false), DownloadStep::UseCached);
    assert_eq!(download_step(false, true), DownloadStep::Refuse);
    assert_eq!(download_step(false, false), DownloadStep::Download);
}

#[test]
fn aria2c_arguments() {
    let args = aria2c_args("https://x/1.car", "/tmp/t");
    assert_eq!(args, vec!["-s32", "-x16", "-k300M", "https://x/1.car", "-d", "/tmp/t"]);
}

#[test]
fn scan_stops_at_block_limit() {
    let mut scan = CarScan::new();
    assert!(scan.on_block_read(false, Some(2), None));
    assert!(!scan.should_stop(Some(2), None));
    assert!(scan.on_block_read(false, Some(2), None));
    assert!(scan.should_stop(Some(2), None));
    assert!(!scan.on_block_read(false, Some(2), None));
    assert!(!scan.on_block_read(true, None, None));
    assert_eq!(scan.blocks_seen, 2);
}

#[test]
fn scan_with_a_block_limit_of_zero_processes_nothing() {
    let mut scan = CarScan::new();
    assert!(!scan.on_block_read(false, Some(0), None));
    assert_eq!(scan.blocks_seen, 0);
    assert!(!scan.on_block_read(false, None, Some(0)));
    assert!(scan.on_block_read(false, None, Some(1)));
    assert_eq!(scan.blocks_seen, 1);
}

#[test]
fn scan_stops_at_transaction_limit() {
    let mut scan = CarScan::new();
    scan.on_transactions(3);
    assert!(!scan.should_stop(None, Some(4)));
    scan.on_transactions(1);
    assert!(scan.should_stop(None, Some(4)));
    assert!(!scan.should_stop(None, None));
}

#[test]
fn missing_file_error_names_the_path() {
    match missing_file_error("/data/epoch-7.car") {
        CarSourceError::DownloadFailed(m) => assert_eq!(m, "file missing: /data/epoch-7.car (skip_download=true)"),
        _ => panic!("expected a download error"),
    }
}
