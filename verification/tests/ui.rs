use souls_client::client::NetworkTime;
use souls_client::ui::{get_elapsed_time, timer_title, UiRequest, Widget, WidgetChannel};

const SECOND: u64 = 1_000_000_000;

fn request(toast: Option<&str>, timer: Option<&str>, info: Option<Vec<&str>>) -> UiRequest {
    UiRequest {
        toast: toast.map(|t| t.to_string()),
        timer: timer.map(|t| t.to_string()),
        info: info.map(|list| list.iter().map(|s| s.to_string()).collect()),
    }
}

fn texts(widget: &Widget) -> Vec<&str> {
    widget.toasts.iter().map(|t| t.text.as_str()).collect()
}

#[test]
fn toasts_wait_in_order_and_are_handed_out_once() {
    let mut channel = WidgetChannel::new();
    channel.show_toast("a");
    channel.handle_request(&request(Some("b"), None, None));
    assert_eq!(channel.recv(), vec!["a".to_string(), "b".to_string()]);
    assert!(channel.recv().is_empty());
}

#[test]
fn requests_change_only_what_they_name() {
    let mut channel = WidgetChannel::new();
    channel.handle_request(&request(None, Some("1970-01-01T00:01:00Z"), Some(vec!["x", "y"])));
    assert_eq!(channel.timer, Some(NetworkTime { secs: 60, nanos: 0, offset: 0 }));
    assert_eq!(channel.info, vec!["x".to_string(), "y".to_string()]);
    channel.handle_request(&request(Some("t"), None, None));
    assert!(channel.timer.is_some());
    assert_eq!(channel.info.len(), 2);
    channel.handle_request(&request(None, Some(""), Some(vec![])));
    assert_eq!(channel.timer, None);
    assert!(channel.info.is_empty());
    channel.handle_request(&request(None, Some("soon"), None));
    assert_eq!(channel.timer, None);
}

#[test]
fn a_given_timer_is_taken_over() {
    let mut channel = WidgetChannel::new();
    let time = NetworkTime { secs: 5, nanos: 6, offset: 7 };
    channel.handle_request_with(&request(None, Some("x"), None), Some(time));
    assert_eq!(channel.timer, Some(time));
    channel.handle_request_with(&request(None, None, None), None);
    assert_eq!(channel.timer, Some(time));
}

#[test]
fn toasts_stay_four_seconds() {
    let mut widget = Widget::new();
    widget.update_toasts(vec!["a".to_string()], 10 * SECOND);
    widget.update_toasts(vec!["b".to_string()], 12 * SECOND);
    assert_eq!(texts(&widget), vec!["a", "b"]);
    widget.update_toasts(vec![], 14 * SECOND - 1);
    assert_eq!(texts(&widget), vec!["a", "b"]);
    widget.update_toasts(vec!["c".to_string()], 14 * SECOND);
    assert_eq!(texts(&widget), vec!["b", "c"]);
    widget.update_toasts(vec![], 18 * SECOND);
    assert!(widget.toasts.is_empty());
}

#[test]
fn elapsed_time_is_minutes_and_seconds() {
    assert_eq!(get_elapsed_time(0), "0:00");
    assert_eq!(get_elapsed_time(-5), "0:00");
    assert_eq!(get_elapsed_time(59), "0:59");
    assert_eq!(get_elapsed_time(61), "1:01");
    assert_eq!(get_elapsed_time(3600), "60:00");
    assert_eq!(get_elapsed_time(i32::MAX), "35791394:07");
    assert_eq!(timer_title(Some(600)), "10:00");
    assert_eq!(timer_title(None), "");
}
