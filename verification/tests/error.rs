use ultrafxr::error::{ErrorHandler, Failed, Severity};
use ultrafxr::sourcepos::{Pos, Span};

#[test]
fn warning_is_less_than_error() {
    assert!(Severity::Warning < Severity::Error);
    assert!(Severity::Error > Severity::Warning);
    assert!(Severity::Warning <= Severity::Warning);
    assert!(!(Severity::Error < Severity::Error));
    assert_eq!(Severity::Warning.max(Severity::Error), Severity::Error);
}

#[test]
fn severity_to_string() {
    assert_eq!(Severity::Warning.to_string(), "warning");
    assert_eq!(Severity::Error.to_string(), "error");
}

struct Collector {
    messages: Vec<(Span, String)>,
}

impl ErrorHandler for Collector {
    fn handle(&mut self, pos: Span, message: &str) {
        self.messages.push((pos, message.to_string()));
    }
}

#[test]
fn handler_receives_messages() {
    let mut collector = Collector {
        messages: Vec::new(),
    };
    let pos = Span {
        start: Pos(3),
        end: Pos(4),
    };
    collector.handle(pos, "number has no digits");
    assert_eq!(
        collector.messages,
        vec![(pos, "number has no digits".to_string())]
    );
}

#[test]
fn failed_is_one_value() {
    assert_eq!(Failed, Failed);
}
