use std::time::Duration;

use bytes::Bytes;
use http::Method;
use stateform::auth::error::AuthError;
use stateform::cache::entry::CachedResponse;
use stateform::cache::layer::CacheLookup;
use stateform::gateway::concurrency::RefusedBy;
use stateform::gateway::endpoint::Health;
use stateform::metrics::error::MetricsError;
use stateform::metrics::recorder::{status_class, MetricsRecorder, RequestTimer, Sample};
use stateform::metrics::registry::{
    all_metrics, latency_buckets_nanos, size_buckets, Metric, MetricKind,
};
use stateform::metrics::server::{route_metrics_request, MetricsAnswer};
use stateform::ratelimit::limiter::{DeniedBy, RateLimitOutcome};

fn increment(s: &Sample) -> (Metric, Vec<&str>) {
    match s {
        Sample::Increment { metric, labels } => {
            (*metric, labels.iter().map(|l| l.as_str()).collect())
        }
        _ => panic!("nothing was counted"),
    }
}

#[test]
fn record_request_increments_counter() {
    let samples = MetricsRecorder.record_request("api", "GET", 200, Duration::from_millis(10), 128, 512);
    assert_eq!(samples.len(), 4);
    let (metric, labels) = increment(&samples[0]);
    assert_eq!(metric.name(), "stateform_requests_total");
    assert_eq!(labels, ["api", "GET", "2xx"]);
}

#[test]
fn requests_are_timed_and_sized() {
    let samples = MetricsRecorder.record_request("api", "post", 503, Duration::from_millis(10), 128, 512);
    assert_eq!(increment(&samples[0]).1, ["api", "POST", "5xx"]);
    match &samples[1] {
        Sample::Time { metric, labels, time } => {
            assert_eq!(*metric, Metric::RequestDuration);
            assert_eq!(labels, &["api", "POST"]);
            assert_eq!(*time, Duration::from_millis(10));
        }
        _ => panic!("the request was not timed"),
    }
    match (&samples[2], &samples[3]) {
        (
            Sample::Size { metric: Metric::RequestSize, labels, bytes: 128 },
            Sample::Size { metric: Metric::ResponseSize, bytes: 512, .. },
        ) => assert_eq!(labels, &["api"]),
        _ => panic!("the bodies were not sized"),
    }
    // Empty bodies have no size.
    assert_eq!(MetricsRecorder.record_request("api", "GET", 200, Duration::from_millis(1), 0, 0).len(), 2);
}

#[test]
fn status_class_mapping() {
    assert_eq!(status_class(100), "1xx");
    assert_eq!(status_class(200), "2xx");
    assert_eq!(status_class(201), "2xx");
    assert_eq!(status_class(204), "2xx");
    assert_eq!(status_class(301), "3xx");
    assert_eq!(status_class(304), "3xx");
    assert_eq!(status_class(400), "4xx");
    assert_eq!(status_class(401), "4xx");
    assert_eq!(status_class(404), "4xx");
    assert_eq!(status_class(429), "4xx");
    assert_eq!(status_class(500), "5xx");
    assert_eq!(status_class(502), "5xx");
    assert_eq!(status_class(503), "5xx");
    assert_eq!(status_class(0), "unknown");
    assert_eq!(status_class(600), "unknown");
}

#[test]
fn connection_gauge_increments_and_decrements() {
    let mut value = 0;
    for s in [MetricsRecorder.connection_open(), MetricsRecorder.connection_open(), MetricsRecorder.connection_close()] {
        match s {
            Sample::Increment { metric: Metric::ActiveConnections, labels } => {
                assert!(labels.is_empty());
                value += 1;
            }
            Sample::Decrement { metric: Metric::ActiveConnections, labels } => {
                assert!(labels.is_empty());
                value -= 1;
            }
            _ => panic!("the gauge did not move"),
        }
    }
    assert_eq!(value, 1);
    assert_eq!(Metric::ActiveConnections.name(), "stateform_active_connections");
}

#[test]
fn rate_limit_allowed_does_not_increment() {
    let outcome = RateLimitOutcome {
        allowed: true,
        remaining: 99,
        limit: 100,
        retry_after_ms: 0,
        denied_by: None,
    };
    assert!(MetricsRecorder.record_rate_limit("api", &outcome).is_none());
}

#[test]
fn denials_are_counted_by_their_limit() {
    for (denied_by, layer) in [
        (Some(DeniedBy::L1Local), "l1_local"),
        (Some(DeniedBy::L2Distributed), "l2_distributed"),
        (None, "unknown"),
    ] {
        let outcome = RateLimitOutcome {
            allowed: false,
            remaining: 0,
            limit: 100,
            retry_after_ms: 0,
            denied_by,
        };
        let s = MetricsRecorder.record_rate_limit("api", &outcome).unwrap();
        assert_eq!(increment(&s), (Metric::RateLimitDenied, vec!["api", layer]));
    }
}

#[test]
fn request_timer_records_on_drop() {
    let timer = RequestTimer::start("route-1", "POST");
    let so_far = timer.elapsed();
    match timer.stop() {
        Sample::Time { metric, labels, time } => {
            assert_eq!(metric.name(), "stateform_request_duration_seconds");
            assert_eq!(labels, ["route-1", "POST"]);
            assert!(time >= so_far);
        }
        _ => panic!("the request was not timed"),
    }
}

#[test]
fn upstreams_are_counted_and_timed() {
    let samples = MetricsRecorder.record_upstream("api", "backend", 404, Duration::from_millis(3));
    assert_eq!(increment(&samples[0]), (Metric::UpstreamRequests, vec!["api", "backend", "4xx"]));
    match &samples[1] {
        Sample::Time { metric: Metric::UpstreamDuration, labels, time } => {
            assert_eq!(labels, &["api", "backend"]);
            assert_eq!(*time, Duration::from_millis(3));
        }
        _ => panic!("the upstream was not timed"),
    }
}

#[test]
fn lookups_and_failures_are_counted() {
    assert_eq!(
        increment(&MetricsRecorder.record_cache_lookup("api", &CacheLookup::Miss)),
        (Metric::CacheLookups, vec!["api", "miss"])
    );
    assert_eq!(increment(&MetricsRecorder.record_cache_lookup("api", &CacheLookup::Bypass)).1, ["api", "bypass"]);
    let stored =
        || CachedResponse::new(200, vec![], Bytes::from("x"), Duration::from_secs(1), vec![]);
    for (lookup, result) in [
        (CacheLookup::Hit(stored()), "hit_l1"),
        (CacheLookup::SharedHit(stored()), "hit_l2"),
    ] {
        assert_eq!(
            increment(&MetricsRecorder.record_cache_lookup("api", &lookup)).1,
            ["api", result]
        );
    }

    for (e, mechanism) in [
        (AuthError::MissingToken, "jwt"),
        (AuthError::InvalidApiKey, "api_key"),
        (AuthError::MissingClientCert, "mtls"),
        (AuthError::NoProviderEnabled, "none"),
    ] {
        assert_eq!(
            increment(&MetricsRecorder.record_auth_failure("api", &e)),
            (Metric::AuthFailures, vec!["api", mechanism])
        );
    }
}

#[test]
fn the_gateway_itself_is_watched() {
    assert_eq!(
        increment(&MetricsRecorder.record_config_reload_success()),
        (Metric::ConfigReloads, vec!["success"])
    );
    assert_eq!(increment(&MetricsRecorder.record_config_reload_failure()).1, ["failure"]);
    match MetricsRecorder.record_endpoint_health("backend", "a:1", Health::Degraded) {
        Sample::Level { metric: Metric::EndpointHealth, labels, milli } => {
            assert_eq!(labels, ["backend", "a:1"]);
            assert_eq!(milli, 500);
        }
        _ => panic!("the health was not set"),
    }
    let s = MetricsRecorder.record_concurrency_rejected("api", RefusedBy::Global).unwrap();
    assert_eq!(increment(&s), (Metric::ConcurrencyRejected, vec!["api", "global"]));
    let s = MetricsRecorder.record_concurrency_rejected("api", RefusedBy::Route).unwrap();
    assert_eq!(increment(&s).1, ["api", "route"]);
    assert!(MetricsRecorder.record_concurrency_rejected("api", RefusedBy::Shutdown).is_none());
}

fn register_all() {
    let registry = prometheus::Registry::new();
    for m in all_metrics() {
        let labels = m.labels();
        let names: Vec<&str> = labels.iter().map(|l| l.as_str()).collect();
        let registered = match m.kind() {
            MetricKind::Counter => {
                let opts = prometheus::Opts::new(m.name(), m.help());
                registry.register(Box::new(prometheus::IntCounterVec::new(opts, &names).unwrap()))
            }
            MetricKind::Gauge => {
                registry.register(Box::new(prometheus::IntGauge::new(m.name(), m.help()).unwrap()))
            }
            MetricKind::FractionGauge => {
                let opts = prometheus::Opts::new(m.name(), m.help());
                registry.register(Box::new(prometheus::GaugeVec::new(opts, &names).unwrap()))
            }
            MetricKind::Latencies => {
                let buckets = latency_buckets_nanos().iter().map(|n| *n as f64 / 1e9).collect();
                let opts = prometheus::HistogramOpts::new(m.name(), m.help()).buckets(buckets);
                registry.register(Box::new(prometheus::HistogramVec::new(opts, &names).unwrap()))
            }
            MetricKind::Sizes => {
                let buckets = size_buckets().iter().map(|n| *n as f64).collect();
                let opts = prometheus::HistogramOpts::new(m.name(), m.help()).buckets(buckets);
                registry.register(Box::new(prometheus::HistogramVec::new(opts, &names).unwrap()))
            }
        };
        assert!(registered.is_ok(), "{} is there already", m.name());
    }
}

#[test]
fn all_metrics_register_without_error() {
    register_all();
}

#[test]
fn independent_registries_dont_collide() {
    register_all();
    register_all();
}

#[test]
fn metrics_are_listed_once() {
    let metrics = all_metrics();
    assert_eq!(metrics.len(), 13);
    for i in 0..metrics.len() {
        for j in 0..i {
            assert_ne!(metrics[i].name(), metrics[j].name());
        }
    }
}

#[test]
fn buckets_are_in_order() {
    for buckets in [latency_buckets_nanos(), size_buckets()] {
        assert!(buckets.windows(2).all(|w| w[0] < w[1]));
    }
}

#[test]
fn only_the_metrics_are_served() {
    assert_eq!(route_metrics_request(&Method::GET, "/metrics"), MetricsAnswer::Metrics);
    assert_eq!(route_metrics_request(&Method::POST, "/metrics"), MetricsAnswer::NotFound);
    assert_eq!(route_metrics_request(&Method::GET, "/"), MetricsAnswer::NotFound);
}

#[test]
fn metrics_errors_have_their_message() {
    for (e, m) in [
        (MetricsError::Prometheus("x".into()), "prometheus error: x"),
        (MetricsError::Io("x".into()), "io error: x"),
        (MetricsError::Server("x".into()), "metrics server error: x"),
        (
            MetricsError::Bind { addr: "0.0.0.0:1".into(), source: "denied".into() },
            "failed to bind metrics listener on 0.0.0.0:1: denied",
        ),
        (
            MetricsError::Register { name: "m".into(), source: "twice".into() },
            "failed to register metric `m`: twice",
        ),
    ] {
        assert_eq!(e.message(), m);
    }
}
