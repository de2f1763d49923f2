use sideview::funnel::{judge, Funnel};

#[test]
fn judge_reads_the_three_transcripts_seen_live() {
    let up = "Available on the internet:\n\nhttps://lenovo.tail6804fa.ts.net/\n|-- proxy http://127.0.0.1:8899\n\nFunnel started and running in the background.\n";
    match judge(up, true) {
        Funnel::Up(u) => assert_eq!(u, "https://lenovo.tail6804fa.ts.net"),
        _ => panic!("should be up"),
    }
    let gate = "Funnel is not enabled on your tailnet.\nTo enable, visit:\n\n\thttps://login.tailscale.com/f/funnel?node=nqJEVvV1DQ11CNTRL\n";
    match judge(gate, false) {
        Funnel::Blocked(msg) => {
            assert!(msg.contains("login.tailscale.com/f/funnel"), "the admin URL verbatim");
            assert!(!msg.contains("sudo"), "wrong cure not offered");
        }
        _ => panic!("should be blocked"),
    }
    let op = "Success.\nsending serve config: Access denied: serve config denied\n\nUse 'sudo tailscale funnel --bg 8899'.\nTo not require root, use 'sudo tailscale set --operator=$USER' once.\n";
    match judge(op, true) {
        Funnel::Blocked(msg) => assert!(msg.contains("tailscale set --operator")),
        _ => panic!("should be blocked"),
    }
}
