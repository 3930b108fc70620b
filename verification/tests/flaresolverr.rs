use gamecrawler::flaresolverr::{endpoint_or_default, page_from_reply, Solution, SolverError, SolverReply, SolverRequest};

fn reply(status: &str, message: Option<&str>, solution: Option<(&str, u16)>) -> SolverReply {
    SolverReply {
        status: status.to_string(),
        message: message.map(|m| m.to_string()),
        solution: solution.map(|(r, s)| Solution { response: r.to_string(), status: s }),
    }
}

#[test]
fn endpoint_defaults_to_local_port() {
    assert_eq!(endpoint_or_default(None), "http://localhost:8191/v1");
    assert_eq!(endpoint_or_default(Some("http://h:1/v1".to_string())), "http://h:1/v1");
}

#[test]
fn request_asks_for_a_get() {
    let r = SolverRequest::get("https://boardgamegeek.com/browse/boardgame");
    assert_eq!(r.cmd, "request.get");
    assert_eq!(r.url, "https://boardgamegeek.com/browse/boardgame");
    assert_eq!(r.max_timeout, 60000);
}

#[test]
fn ok_reply_gives_page() {
    let r = page_from_reply(reply("ok", None, Some(("<html>", 200))), "u");
    assert_eq!(r.ok().as_deref(), Some("<html>"));
    let r = page_from_reply(reply("ok", None, Some(("", 399))), "u");
    assert_eq!(r.ok().as_deref(), Some(""));
}

#[test]
fn refused_reply() {
    match page_from_reply(reply("error", Some("Timeout"), None), "u") {
        Err(e) => {
            assert!(matches!(e, SolverError::Refused { .. }));
            assert_eq!(e.message(), "flaresolverr: Timeout");
        }
        Ok(_) => panic!("expected an error"),
    }
    match page_from_reply(reply("warning", None, Some(("x", 200))), "u") {
        Err(e) => assert_eq!(e.message(), "flaresolverr: unknown"),
        Ok(_) => panic!("expected an error"),
    }
}

#[test]
fn reply_without_solution() {
    match page_from_reply(reply("ok", None, None), "u") {
        Err(e) => {
            assert!(matches!(e, SolverError::NoSolution));
            assert_eq!(e.message(), "flaresolverr returned no solution");
        }
        Ok(_) => panic!("expected an error"),
    }
}

#[test]
fn upstream_error_status() {
    match page_from_reply(reply("ok", None, Some(("denied", 403))), "https://x/y") {
        Err(e) => {
            assert!(matches!(e, SolverError::Upstream { status: 403, .. }));
            assert_eq!(e.message(), "upstream HTTP 403 for https://x/y");
        }
        Ok(_) => panic!("expected an error"),
    }
    assert!(page_from_reply(reply("ok", None, Some(("x", 400))), "u").is_err());
}
