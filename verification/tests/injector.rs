use inject_browser_sdk::{Injector, InjectorState};

fn run_chunks(payload: &[u8], chunks: &[&[u8]]) -> Vec<u8> {
    let mut injector = Injector::new(payload.to_vec());
    let mut out: Vec<u8> = Vec::new();
    for chunk in chunks {
        let res = injector.write(chunk).unwrap();
        res.gather(chunk, injector.payload(), &mut out);
    }
    let res = injector.end().unwrap();
    res.gather(&[], injector.payload(), &mut out);
    out
}

fn expected(doc: &[u8], payload: &[u8], at: usize) -> Vec<u8> {
    let mut v = Vec::new();
    v.extend_from_slice(&doc[..at]);
    v.extend_from_slice(payload);
    v.extend_from_slice(&doc[at..]);
    v
}

#[test]
fn inject_after_head_single_chunk() {
    let doc = b"<html><head><title>t</title></head><body>x</body></html>";
    let out = run_chunks(b"[PAYLOAD]", &[doc]);
    assert_eq!(out, expected(doc, b"[PAYLOAD]", 12));
}

#[test]
fn inject_case_insensitive_and_attributes() {
    let doc = b"<!doctype html><HEAD LANG=\"en\">rest";
    let out = run_chunks(b"+P+", &[doc]);
    assert_eq!(out, expected(doc, b"+P+", 31));
}

#[test]
fn inject_self_closing_head() {
    let doc = b"a<head/>b";
    let out = run_chunks(b"P", &[doc]);
    assert_eq!(out, expected(doc, b"P", 8));
}

#[test]
fn quoted_gt_does_not_close_tag() {
    // The `>` inside the quoted attribute values must not terminate the tag.
    let doc = b"<head data-a=\">\" data-b='>'>tail";
    let out = run_chunks(b"P", &[doc]);
    assert_eq!(out, expected(doc, b"P", 28));
}

#[test]
fn no_head_appends_payload_at_end() {
    let doc = b"<html><body>no head here</body></html>";
    let out = run_chunks(b"P", &[doc]);
    assert_eq!(out, expected(doc, b"P", doc.len()));
}

#[test]
fn heady_is_not_head() {
    // A longer tag name starting with `head` is not the anchor.
    let doc = b"<heady>text";
    let out = run_chunks(b"P", &[doc]);
    assert_eq!(out, expected(doc, b"P", doc.len()));
}

#[test]
fn restart_candidate_on_new_angle_bracket() {
    let doc = b"<h<head>x";
    let out = run_chunks(b"P", &[doc]);
    assert_eq!(out, expected(doc, b"P", 8));
}

#[test]
fn empty_document_appends_payload() {
    let out = run_chunks(b"P", &[b""]);
    assert_eq!(out, b"P".to_vec());
}

#[test]
fn payload_injected_exactly_once_with_two_heads() {
    let doc = b"<head>a</head><head>b</head>";
    let out = run_chunks(b"[P]", &[doc]);
    assert_eq!(out, expected(doc, b"[P]", 6));
}

#[test]
fn chunk_boundary_invariance_every_split() {
    // Splitting anywhere — mid-tag, mid-attribute, mid-quote — changes nothing.
    let doc: &[u8] = b"x<h<head a=\"v>'\" b='>'>y</head>z";
    let payload = b"[PAYLOAD]";
    let whole = run_chunks(payload, &[doc]);
    for cut in 0..=doc.len() {
        let out = run_chunks(payload, &[&doc[..cut], &doc[cut..]]);
        assert_eq!(out, whole);
    }
}

#[test]
fn chunk_boundary_invariance_byte_at_a_time() {
    let doc: &[u8] = b"<html><head lang=\"a>b\">tail</head>";
    let payload = b"*P*";
    let whole = run_chunks(payload, &[doc]);
    let ones: Vec<&[u8]> = (0..doc.len()).map(|i| &doc[i..i + 1]).collect();
    let out = run_chunks(payload, &ones);
    assert_eq!(out, whole);
}

#[test]
fn unterminated_head_falls_back_to_end() {
    // A candidate that never closes within the budget is given up; the
    // document passes through unchanged and the payload is appended at the
    // end, with memory bounded throughout.
    let mut doc: Vec<u8> = Vec::new();
    doc.extend_from_slice(b"<head ");
    doc.extend_from_slice(&vec![b'a'; 100_000]);
    doc.push(b'>');
    let out = run_chunks(b"P", &[&doc]);
    assert_eq!(out, expected(&doc, b"P", doc.len()));
}

#[test]
fn unterminated_head_streamed_in_small_chunks() {
    let mut doc: Vec<u8> = Vec::new();
    doc.extend_from_slice(b"<head");
    doc.extend_from_slice(&vec![b' '; 3000]);
    let whole = run_chunks(b"P", &[&doc]);
    let chunks: Vec<&[u8]> = doc.chunks(7).collect();
    let split = run_chunks(b"P", &chunks);
    assert_eq!(whole, split);
    assert_eq!(whole, expected(&doc, b"P", doc.len()));
}

#[test]
fn write_after_injection_passes_through() {
    let mut injector = Injector::new(b"P".to_vec());
    let mut out: Vec<u8> = Vec::new();
    let first: &[u8] = b"<head>";
    let res = injector.write(first).unwrap();
    res.gather(first, injector.payload(), &mut out);
    assert_eq!(injector.state(), InjectorState::Injected);
    let second: &[u8] = b"<head>more";
    let res = injector.write(second).unwrap();
    res.gather(second, injector.payload(), &mut out);
    let res = injector.end().unwrap();
    res.gather(&[], injector.payload(), &mut out);
    assert_eq!(out, b"<head>P<head>more".to_vec());
}

#[test]
fn end_twice_fails_and_emits_nothing() {
    let mut injector = Injector::new(b"P".to_vec());
    let chunk: &[u8] = b"abc";
    let _ = injector.write(chunk).unwrap();
    let first = injector.end();
    assert!(first.is_ok());
    assert_eq!(injector.state(), InjectorState::Finalized);
    let second = injector.end();
    assert!(second.is_err());
    assert_eq!(injector.state(), InjectorState::Finalized);
}

#[test]
fn write_after_end_fails_and_emits_nothing() {
    let mut injector = Injector::new(b"P".to_vec());
    let _ = injector.end().unwrap();
    let chunk: &[u8] = b"abc";
    let res = injector.write(chunk);
    assert!(res.is_err());
    assert_eq!(injector.state(), InjectorState::Finalized);
}

#[test]
fn slice_count_stays_within_capacity() {
    // Worst case for one call: carry flush, tag span, payload, remainder.
    let mut injector = Injector::new(b"P".to_vec());
    let mut out: Vec<u8> = Vec::new();
    let first: &[u8] = b"<hea";
    let res = injector.write(first).unwrap();
    assert!(res.slices.len() <= 4);
    res.gather(first, injector.payload(), &mut out);
    let second: &[u8] = b"t<head>rest";
    let res = injector.write(second).unwrap();
    assert!(res.slices.len() <= 4);
    res.gather(second, injector.payload(), &mut out);
    let res = injector.end().unwrap();
    res.gather(&[], injector.payload(), &mut out);
    assert_eq!(out, b"<heat<head>Prest".to_vec());
}

#[test]
fn generated_snippet_round_trip() {
    // The generated payload flows through the injector like any other.
    let config = inject_browser_sdk::Configuration {
        major_version: 5,
        rum: inject_browser_sdk::RumConfiguration {
            application_id: String::from("app"),
            client_token: String::from("tok"),
            ..Default::default()
        },
    };
    let payload = inject_browser_sdk::generate_snippet(&config).unwrap();
    let doc = b"<html><head><body>";
    let out = run_chunks(&payload, &[doc]);
    assert_eq!(out, expected(doc, &payload, 12));
}
