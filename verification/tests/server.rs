use miniflux_reader::config::{
    default_fetch_timeout, default_poll, default_target_lang, default_ua, AppConfig, FeedCfg, PathsCfg, TranslateCfg,
};
use miniflux_reader::epub::EpubError;
use miniflux_reader::http_error::{AppHttpError, DbFailure, ServiceFailure};

#[test]
fn feed_config_defaults() {
    let f = FeedCfg::default();
    assert_eq!(f.poll_interval_secs, 900);
    assert_eq!(f.fetch_timeout_secs, 30);
    assert_eq!(f.user_agent, "miniflux-reader-rs/0.2.0");
    assert_eq!((default_poll(), default_fetch_timeout()), (900, 30));
    assert_eq!(default_ua(), "miniflux-reader-rs/0.2.0");
    assert_eq!(default_target_lang(), "zh-CN");
}

#[test]
fn app_config_defaults() {
    let c = AppConfig::default();
    assert_eq!(c.listen_addr, "");
    assert_eq!(c.feed.poll_interval_secs, 900);
    assert!(c.paths.pkg_dir.is_none());
    assert_eq!(TranslateCfg::default().target_lang, "");
    assert_eq!(PathsCfg::default().db, "");
}

fn parts(e: AppHttpError) -> (u16, String, String) {
    e.response_parts()
}

#[test]
fn http_errors_map_to_status_code_and_message() {
    assert_eq!(
        parts(ServiceFailure::TextTooLong(5001).into()),
        (413, "TEXT_TOO_LONG".to_string(), "batch too long: 5001".to_string())
    );
    assert_eq!(parts(ServiceFailure::Timeout("5s".into()).into()), (504, "TIMEOUT".into(), "timed out: 5s".into()));
    assert_eq!(parts(ServiceFailure::Network("down".into()).into()), (502, "BAD_GATEWAY".into(), "down".into()));
    assert_eq!(parts(ServiceFailure::Upstream("500".into()).into()), (502, "UPSTREAM".into(), "500".into()));
    assert_eq!(parts(DbFailure::NotFound("book.epub".into()).into()), (404, "NOT_FOUND".into(), "not found: book.epub".into()));
    assert_eq!(parts(DbFailure::Other("locked".into()).into()), (500, "DB_ERROR".into(), "locked".into()));
    assert_eq!(
        parts(EpubError::MissingEntry("x".into()).into()),
        (400, "EPUB_ERROR".into(), "missing entry in epub: x".into())
    );
    assert_eq!(parts(AppHttpError::BadRequest("b".into())), (400, "BAD_REQUEST".into(), "b".into()));
    assert_eq!(parts(AppHttpError::NotFound("n".into())), (404, "NOT_FOUND".into(), "n".into()));
    assert_eq!(parts(AppHttpError::Internal("i".into())), (500, "INTERNAL".into(), "i".into()));
}
