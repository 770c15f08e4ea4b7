use persea::metrics::{
    error_inc, metrics, render_prometheus, request_inc, response_seen, session_active_dec,
    session_active_inc, session_total_inc, uptime_seconds,
};
use persea::time::Timestamp;

#[test]
fn exposition() {
    let mut m = metrics(Timestamp::at_second(100));
    session_active_inc(&mut m);
    session_active_inc(&mut m);
    session_active_dec(&mut m);
    session_total_inc(&mut m);
    request_inc(&mut m);
    request_inc(&mut m);
    response_seen(&mut m, 200);
    response_seen(&mut m, 503);
    error_inc(&mut m);
    let now = Timestamp { secs: 160, nanos: 999_999_999 };
    assert_eq!(uptime_seconds(&m, now), 60);
    assert_eq!(
        render_prometheus(&m, now),
        "# HELP persea_sessions_active Current active sessions\n\
         # TYPE persea_sessions_active gauge\n\
         persea_sessions_active 1\n\
         # HELP persea_sessions_total Total sessions created\n\
         # TYPE persea_sessions_total counter\n\
         persea_sessions_total 1\n\
         # HELP persea_requests_total Total HTTP requests\n\
         # TYPE persea_requests_total counter\n\
         persea_requests_total 2\n\
         # HELP persea_errors_total Total request errors (5xx responses)\n\
         # TYPE persea_errors_total counter\n\
         persea_errors_total 2\n\
         # HELP persea_uptime_seconds Server uptime in seconds\n\
         # TYPE persea_uptime_seconds gauge\n\
         persea_uptime_seconds 60\n"
    );
}
