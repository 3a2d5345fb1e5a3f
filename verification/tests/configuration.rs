use std::path::PathBuf;
use tx_manager::config::Config;

#[test]
fn configuration_holds_the_two_paths() {
    let config = Config {
        watcher_db: PathBuf::from("/var/lib/watcher-db"),
        avr_history: PathBuf::from("/tmp/export/"),
    };
    assert_eq!(config.watcher_db, PathBuf::from("/var/lib/watcher-db"));
    assert_eq!(config.avr_history, PathBuf::from("/tmp/export/"));
}
