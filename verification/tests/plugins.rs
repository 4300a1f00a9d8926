use hexchat_backend::plugin::{Plugin, PluginHost};
use hexchat_backend::proto::parse_line;
use hexchat_backend::session::{Event, ServerState};
use std::sync::atomic::{AtomicUsize, Ordering};
use std::sync::Arc;

struct Counter {
    events: Arc<AtomicUsize>,
    outgoing: Arc<AtomicUsize>,
}

impl Plugin for Counter {
    fn name(&self) -> &str {
        "counter"
    }

    fn on_event(&self, _ev: &Event) -> Result<(), anyhow::Error> {
        self.events.fetch_add(1, Ordering::SeqCst);
        Ok(())
    }

    fn on_outgoing(&self, _msg: &hexchat_backend::proto::Message) -> Result<(), anyhow::Error> {
        self.outgoing.fetch_add(1, Ordering::SeqCst);
        Ok(())
    }
}

struct Grumpy;

impl Plugin for Grumpy {
    fn name(&self) -> &str {
        "grumpy"
    }

    fn on_event(&self, _ev: &Event) -> Result<(), anyhow::Error> {
        Err(anyhow::Error::msg("no thanks"))
    }
}

#[test]
fn host_dispatches_to_every_plugin() {
    let events = Arc::new(AtomicUsize::new(0));
    let outgoing = Arc::new(AtomicUsize::new(0));
    let mut host = PluginHost::new();
    host.register(Box::new(Counter { events: events.clone(), outgoing: outgoing.clone() }));
    host.register(Box::new(Grumpy));

    let mut st = ServerState::new("net".to_string(), "me".to_string());
    let msg = parse_line(":a!u@h PRIVMSG #c :hi").unwrap();
    let ev = st.on_message(msg.clone());
    host.dispatch_event(&ev);
    host.dispatch_event(&ev);
    host.dispatch_outgoing(&msg);
    assert_eq!(events.load(Ordering::SeqCst), 2);
    assert_eq!(outgoing.load(Ordering::SeqCst), 1);
}

#[test]
fn plugin_default_handlers_accept_everything() {
    struct Quiet;
    impl Plugin for Quiet {
        fn name(&self) -> &str {
            "quiet"
        }
    }
    let q = Quiet;
    assert_eq!(q.name(), "quiet");
    assert!(q.on_event(&Event::Welcome("hi".to_string())).is_ok());
    assert!(q.on_outgoing(&parse_line("PING x").unwrap()).is_ok());
}
