use inject_browser_sdk::{
    format_cdn_url, generate_snippet, Configuration, Error, JsonFragment, PrivacyLevel,
    RumConfiguration,
};

#[test]
fn test_generate_snippet_with_minimal_configuration() {
    let expected_snippet = r#"
<script>
(function(h,o,u,n,d) {
  h=h[d]=h[d]||{q:[],onReady:function(c){h.q.push(c)}}
  d=o.createElement(u);d.async=1;d.src=n
  n=o.getElementsByTagName(u)[0];n.parentNode.insertBefore(d,n)
})(window,document,'script','https://www.datadoghq-browser-agent.com/us1/v5/datadog-rum.js','DD_RUM')
window.DD_RUM.onReady(function() {
  window.DD_RUM.init({"applicationId":"bar","clientToken":"foo"});
});
</script>
"#;

    assert_eq!(
        core::str::from_utf8(
            &generate_snippet(&Configuration {
                major_version: 5,
                rum: RumConfiguration {
                    client_token: String::from("foo"),
                    application_id: String::from("bar"),
                    ..Default::default()
                }
            })
            .unwrap()
        )
        .unwrap(),
        expected_snippet
    )
}

#[test]
fn test_generate_snippet() {
    let expected_snippet = r#"
<script>
(function(h,o,u,n,d) {
  h=h[d]=h[d]||{q:[],onReady:function(c){h.q.push(c)}}
  d=o.createElement(u);d.async=1;d.src=n
  n=o.getElementsByTagName(u)[0];n.parentNode.insertBefore(d,n)
})(window,document,'script','https://www.datadoghq-browser-agent.com/us1/v5/datadog-rum.js','DD_RUM')
window.DD_RUM.onReady(function() {
  window.DD_RUM.init({"applicationId":"bar","clientToken":"foo","site":"datadoghq.com","trackResources":true,"defaultPrivacyLevel":"mask","sessionSampleRate":42.42});
});
</script>
"#;

    assert_eq!(
        core::str::from_utf8(
            &generate_snippet(&Configuration {
                major_version: 5,
                rum: RumConfiguration {
                    client_token: String::from("foo"),
                    application_id: String::from("bar"),
                    site: Some(String::from("datadoghq.com")),
                    default_privacy_level: Some(PrivacyLevel::Mask),
                    track_resources: Some(true),
                    session_sample_rate: Some(JsonFragment(String::from("42.42"))),
                    ..Default::default()
                }
            })
            .unwrap()
        )
        .unwrap(),
        expected_snippet
    )
}

#[test]
fn unicode_values() {
    // It is important that all non-ascii values are escaped, because we don't know the page
    // encoding.
    let expected_snippet = r#"
<script>
(function(h,o,u,n,d) {
  h=h[d]=h[d]||{q:[],onReady:function(c){h.q.push(c)}}
  d=o.createElement(u);d.async=1;d.src=n
  n=o.getElementsByTagName(u)[0];n.parentNode.insertBefore(d,n)
})(window,document,'script','https://www.datadoghq-browser-agent.com/us1/v5/datadog-rum.js','DD_RUM')
window.DD_RUM.onReady(function() {
  window.DD_RUM.init({"applicationId":"\u263a \u20ac \u00e9","clientToken":"foo","site":"datadoghq.com"});
});
</script>
"#;

    assert_eq!(
        core::str::from_utf8(
            &generate_snippet(&Configuration {
                major_version: 5,
                rum: RumConfiguration {
                    client_token: String::from("foo"),
                    application_id: String::from("☺ € é"),
                    site: Some(String::from("datadoghq.com")),
                    ..Default::default()
                }
            })
            .unwrap()
        )
        .unwrap(),
        expected_snippet
    )
}

#[test]
fn test_forward_compatibility() {
    let expected_snippet = r#"
<script>
(function(h,o,u,n,d) {
  h=h[d]=h[d]||{q:[],onReady:function(c){h.q.push(c)}}
  d=o.createElement(u);d.async=1;d.src=n
  n=o.getElementsByTagName(u)[0];n.parentNode.insertBefore(d,n)
})(window,document,'script','https://www.datadoghq-browser-agent.com/us1/v5/datadog-rum.js','DD_RUM')
window.DD_RUM.onReady(function() {
  window.DD_RUM.init({"applicationId":"foo","clientToken":"bar","site":"datadoghq.com","newopt":"value","newopt2":true});
});
</script>
"#;

    assert_eq!(
        core::str::from_utf8(
            &generate_snippet(&Configuration {
                major_version: 5,
                rum: RumConfiguration {
                    application_id: String::from("foo"),
                    client_token: String::from("bar"),
                    site: Some(String::from("datadoghq.com")),
                    other: vec![
                        (String::from("newopt"), JsonFragment(String::from("\"value\""))),
                        (String::from("newopt2"), JsonFragment(String::from("true"))),
                    ],
                    ..Default::default()
                }
            })
            .unwrap()
        )
        .unwrap(),
        expected_snippet
    )
}

#[test]
fn test_format_cdn_url() {
    assert_eq!(
        format_cdn_url(5, "datadoghq.com").unwrap(),
        "https://www.datadoghq-browser-agent.com/us1/v5/datadog-rum.js"
    );
    assert_eq!(
        format_cdn_url(5, "foo.com").unwrap_err(),
        Error::UnsupportedSite(String::from("foo.com"))
    );
    assert_eq!(
        format_cdn_url(5, "ddog-gov.com").unwrap(),
        "https://www.datadoghq-browser-agent.com/datadog-rum-v5.js"
    );
}

#[test]
fn test_format_cdn_url_all_regions() {
    assert_eq!(
        format_cdn_url(6, "us3.datadoghq.com").unwrap(),
        "https://www.datadoghq-browser-agent.com/us3/v6/datadog-rum.js"
    );
    assert_eq!(
        format_cdn_url(6, "us5.datadoghq.com").unwrap(),
        "https://www.datadoghq-browser-agent.com/us5/v6/datadog-rum.js"
    );
    assert_eq!(
        format_cdn_url(6, "datadoghq.eu").unwrap(),
        "https://www.datadoghq-browser-agent.com/eu1/v6/datadog-rum.js"
    );
    assert_eq!(
        format_cdn_url(6, "ap1.datadoghq.com").unwrap(),
        "https://www.datadoghq-browser-agent.com/ap1/v6/datadog-rum.js"
    );
    assert_eq!(
        format_cdn_url(123, "datadoghq.com").unwrap(),
        "https://www.datadoghq-browser-agent.com/us1/v123/datadog-rum.js"
    );
}

#[test]
fn test_generate_snippet_unsupported_site() {
    let err = generate_snippet(&Configuration {
        major_version: 5,
        rum: RumConfiguration {
            application_id: String::from("a"),
            client_token: String::from("b"),
            site: Some(String::from("foo.com")),
            ..Default::default()
        },
    })
    .unwrap_err();
    assert_eq!(err, Error::UnsupportedSite(String::from("foo.com")));
}

#[test]
fn test_generate_snippet_all_fields() {
    let bytes = generate_snippet(&Configuration {
        major_version: 4,
        rum: RumConfiguration {
            application_id: String::from("id"),
            client_token: String::from("tok"),
            site: Some(String::from("datadoghq.eu")),
            service: Some(String::from("svc")),
            env: Some(String::from("prod")),
            version: Some(String::from("1.2.3")),
            track_user_interactions: Some(true),
            track_resources: Some(false),
            track_long_task: Some(true),
            default_privacy_level: Some(PrivacyLevel::MaskUserInput),
            session_sample_rate: Some(JsonFragment(String::from("100"))),
            session_replay_sample_rate: Some(JsonFragment(String::from("0"))),
            other: Vec::new(),
        },
    })
    .unwrap();
    let text = core::str::from_utf8(&bytes).unwrap();
    assert!(text.contains(
        "https://www.datadoghq-browser-agent.com/eu1/v4/datadog-rum.js"
    ));
    assert!(text.contains(
        "{\"applicationId\":\"id\",\"clientToken\":\"tok\",\"site\":\"datadoghq.eu\",\
\"service\":\"svc\",\"env\":\"prod\",\"version\":\"1.2.3\",\
\"trackUserInteractions\":true,\"trackResources\":false,\"trackLongTask\":true,\
\"defaultPrivacyLevel\":\"mask-user-input\",\"sessionSampleRate\":100,\
\"sessionReplaySampleRate\":0}"
    ));
}

#[test]
fn test_json_string_escapes() {
    let bytes = generate_snippet(&Configuration {
        major_version: 5,
        rum: RumConfiguration {
            application_id: String::from("a\"b\\c\nd"),
            client_token: String::from("t"),
            ..Default::default()
        },
    })
    .unwrap();
    let text = core::str::from_utf8(&bytes).unwrap();
    assert!(text.contains("{\"applicationId\":\"a\\\"b\\\\c\\nd\",\"clientToken\":\"t\"}"));
}
