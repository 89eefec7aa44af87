use rsubdomain::api::{SubdomainBruteConfig, SubdomainResult};
use rsubdomain::bytes::{format_ipv4, parse_ipv4, u64_to_string};
use rsubdomain::codec::build_dns_query;
use rsubdomain::gen::generate_subdomains;
use rsubdomain::handle::{
    generate_summary, parse_dns_name, parse_txt_record, DiscoveredDomain, VerificationResult,
};
use rsubdomain::input::{parse_bandwidth, parse_output_format, OutputFormat};
use rsubdomain::output::{
    escape_csv, escape_xml, export_to_csv, export_to_txt, export_to_xml, ExportData,
    SerializableDiscoveredDomain, SerializableSummaryStats, SerializableVerificationResult,
};
use rsubdomain::structs::ScanCounters;
use rsubdomain::wildcard::{filter_wildcards, WildcardDetector};

#[test]
fn internal() {
    let domains = &[
        "tuyere.api.mgtv.com",
        "node-ssl.titan.mgtv.com",
        "static2-scloud-letv.yysh.mgtv.com",
        "static2-scloud-letv.yysh.mgtv.com.cdnle.com",
        "hisense-download-juui-plugin.yysh.mgtv.com",
        "hisense-download-juui-plugin.yysh.mgtv.com.wsdvs.com",
        "hisense-paster-thirdcmp.yysh.mgtv.com",
        "paster-thirdcmp.hismarttv.com",
        "mgemsg3.api.mgtv.com",
        "al2z.gateway.mgtv.com",
        "hisense-all-jhxkt.yysh.mgtv.com",
        "all-jhxkt.hismarttv.com",
    ];
    let suffix = vec![".mgtv.com", ".hismarttv.com"];
    let subdomains = generate_subdomains(domains, suffix);
    println!("{:?}", subdomains);
}

#[test]
fn generate_subdomains_small() {
    let subdomains = generate_subdomains(&["a.b.c"], vec![".c"]);
    assert_eq!(
        subdomains,
        vec!["a".to_string(), "b".to_string(), "a.b".to_string()]
    );
}

#[test]
fn test_config_creation() {
    let config = SubdomainBruteConfig {
        domains: vec!["test.com".to_string()],
        resolvers: vec!["8.8.8.8".to_string()],
        dictionary_file: None,
        dictionary: None,
        skip_wildcard: false,
        bandwidth_limit: Some("1M".to_string()),
        verify_mode: false,
        resolve_records: false,
        silent: true,
        device: None,
    };

    assert_eq!(config.domains.len(), 1);
    assert_eq!(config.resolvers.len(), 1);
    assert_eq!(config.bandwidth_limit, Some("1M".to_string()));
    assert!(!config.skip_wildcard);
    assert!(config.silent);
}

#[test]
fn test_default_config() {
    let config = SubdomainBruteConfig::default();

    assert!(config.domains.is_empty());
    assert!(config.resolvers.is_empty());
    assert!(config.dictionary_file.is_none());
    assert!(config.skip_wildcard);
    assert_eq!(config.bandwidth_limit, Some("3M".to_string()));
    assert!(!config.verify_mode);
    assert!(!config.resolve_records);
    assert!(!config.silent);
    assert!(config.device.is_none());
}

#[test]
fn test_result_structure() {
    let result = SubdomainResult {
        domain: "test.example.com".to_string(),
        ip: "192.168.1.1".to_string(),
        record_type: "A".to_string(),
        verified: None,
        dns_records: None,
    };

    assert_eq!(result.domain, "test.example.com");
    assert_eq!(result.ip, "192.168.1.1");
    assert_eq!(result.record_type, "A");
    assert!(result.verified.is_none());
    assert!(result.dns_records.is_none());
}

#[test]
fn bandwidth_values() {
    // Reference strings parse to their exact byte rates.
    assert_eq!(parse_bandwidth("1K"), Ok(1024));
    assert_eq!(parse_bandwidth("1M"), Ok(1048576));
    assert_eq!(parse_bandwidth("1G"), Ok(1073741824));
    assert_eq!(parse_bandwidth("1.5M"), Ok(1572864));
    assert_eq!(parse_bandwidth("3m"), Ok(3145728));
    assert_eq!(parse_bandwidth("100K"), Ok(102400));
    assert_eq!(
        parse_bandwidth("10"),
        Err("Invalid bandwidth format. Use K, M, or G suffix.".to_string())
    );
    assert_eq!(
        parse_bandwidth("K"),
        Err("Invalid number in bandwidth".to_string())
    );
    assert_eq!(
        parse_bandwidth("1.2.3M"),
        Err("Invalid number in bandwidth".to_string())
    );
}

#[test]
fn output_format_names() {
    assert_eq!("JSON".parse::<OutputFormat>(), Ok(OutputFormat::Json));
    assert_eq!(parse_output_format("json"), Ok(OutputFormat::Json));
    assert_eq!(parse_output_format("JSON"), Ok(OutputFormat::Json));
    assert_eq!(parse_output_format("Xml"), Ok(OutputFormat::Xml));
    assert_eq!(parse_output_format("csv"), Ok(OutputFormat::Csv));
    assert_eq!(parse_output_format("txt"), Ok(OutputFormat::Txt));
    assert!(parse_output_format("yaml").is_err());
}

#[test]
fn dns_query_bytes() {
    // The encode side of the query codec, byte for byte.
    let q = build_dns_query("www.example.com", 50007);
    let mut expect: Vec<u8> = vec![
        (50007u16 >> 8) as u8,
        (50007u16 & 0xff) as u8,
        1,
        0,
        0,
        1,
        0,
        0,
        0,
        0,
        0,
        0,
    ];
    expect.extend_from_slice(&[3]);
    expect.extend_from_slice(b"www");
    expect.extend_from_slice(&[7]);
    expect.extend_from_slice(b"example");
    expect.extend_from_slice(&[3]);
    expect.extend_from_slice(b"com");
    expect.extend_from_slice(&[0, 0, 1, 0, 1]);
    assert_eq!(q, expect);
}

#[test]
fn dns_name_round_trip() {
    // Decoding the encoded question gives the name back.
    let q = build_dns_query("mail.example.com", 40001);
    let name = parse_dns_name(&q[12..]);
    assert_eq!(name, "mail.example.com");
}

#[test]
fn txt_record_text() {
    assert_eq!(parse_txt_record(&[2, 104, 105]), "hi");
    assert_eq!(parse_txt_record(&[1, 97, 2, 98, 99]), "a bc");
    assert_eq!(parse_txt_record(&[]), "");
}

#[test]
fn ipv4_text_round_trip() {
    assert_eq!(format_ipv4(&[93, 184, 216, 34]), "93.184.216.34");
    assert_eq!(parse_ipv4("93.184.216.34"), Some([93, 184, 216, 34]));
    assert_eq!(parse_ipv4("256.1.1.1"), None);
    assert_eq!(parse_ipv4("1.2.3"), None);
    assert_eq!(parse_ipv4("a.b.c.d"), None);
    assert_eq!(u64_to_string(0), "0");
    assert_eq!(u64_to_string(65499), "65499");
}

#[test]
fn wildcard_cache_suppresses_phantoms() {
    // A cached wildcard address suppresses matching A
    // discoveries, and filtering twice changes nothing more.
    let mut det = WildcardDetector::new();
    assert!(det.detect_wildcard("example.com", &vec![[1, 2, 3, 4], [1, 2, 3, 4]]));
    assert!(!det.detect_wildcard("other.com", &vec![[1, 2, 3, 4], [5, 6, 7, 8]]));
    assert!(det.is_wildcard_result("random.example.com", &[1, 2, 3, 4]));
    assert!(!det.is_wildcard_result("random.example.com", &[9, 9, 9, 9]));
    assert!(!det.is_wildcard_result("random.other.com", &[1, 2, 3, 4]));

    let items = vec![
        DiscoveredDomain {
            domain: "random.example.com".to_string(),
            ip: "1.2.3.4".to_string(),
            record_type: "A".to_string(),
            timestamp: 1,
        },
        DiscoveredDomain {
            domain: "www.example.com".to_string(),
            ip: "9.9.9.9".to_string(),
            record_type: "A".to_string(),
            timestamp: 2,
        },
        DiscoveredDomain {
            domain: "random.example.com".to_string(),
            ip: "1.2.3.4".to_string(),
            record_type: "TXT".to_string(),
            timestamp: 3,
        },
    ];
    let once = filter_wildcards(&det, &items);
    assert_eq!(once.len(), 2);
    assert_eq!(once[0].domain, "www.example.com");
    assert_eq!(once[1].record_type, "TXT");
    let twice = filter_wildcards(&det, &once);
    assert_eq!(twice.len(), once.len());
    for (a, b) in once.iter().zip(twice.iter()) {
        assert_eq!(a.domain, b.domain);
        assert_eq!(a.ip, b.ip);
    }
}

#[test]
fn xml_and_csv_escaping() {
    assert_eq!(escape_xml("a<b>&\"'c"), "a&lt;b&gt;&amp;&quot;&apos;c");
    assert_eq!(escape_xml("plain"), "plain");
    assert_eq!(escape_csv("plain"), "plain");
    assert_eq!(escape_csv("a,b"), "\"a,b\"");
    assert_eq!(escape_csv("say \"hi\""), "\"say \"\"hi\"\"\"");
    assert_eq!(escape_csv("two\nlines"), "\"two\nlines\"");
}

#[test]
fn exports_render_rows() {
    let data = ExportData {
        discovered_domains: vec![SerializableDiscoveredDomain {
            domain: "www.example.com".to_string(),
            ip: "93.184.216.34".to_string(),
            record_type: "A".to_string(),
            timestamp: 0,
            formatted_time: "1970-01-01 00:00:00".to_string(),
        }],
        verification_results: vec![SerializableVerificationResult {
            domain: "www.example.com".to_string(),
            ip: "93.184.216.34".to_string(),
            http_status: Some(200),
            https_status: None,
            title: Some("Example".to_string()),
            server: None,
            is_alive: true,
        }],
        summary: SerializableSummaryStats {
            total_domains: 1,
            unique_ips: vec!["93.184.216.34".to_string()],
            ip_ranges: vec![("93.184.216.0/24".to_string(), vec!["93.184.216.34".to_string()])],
            record_types: vec![("A".to_string(), 1)],
            verified_domains: 1,
            alive_domains: 1,
        },
        export_time: "2024-01-01 00:00:00 UTC".to_string(),
    };
    let xml = export_to_xml(&data);
    assert!(xml.starts_with("<?xml version=\"1.0\" encoding=\"UTF-8\"?>\n<rsubdomain_results>\n"));
    assert!(xml.contains("<name>www.example.com</name>"));
    assert!(xml.contains("<total_domains>1</total_domains>"));
    assert!(xml.contains("<http_status>200</http_status>"));
    assert!(xml.contains("<https_status>N/A</https_status>"));
    assert!(xml.ends_with("</rsubdomain_results>\n"));

    let csv = export_to_csv(&data);
    assert!(csv.contains("Domain,IP,RecordType,Timestamp,FormattedTime\n"));
    assert!(csv.contains("www.example.com,93.184.216.34,A,0,1970-01-01 00:00:00\n"));
    assert!(csv.contains("www.example.com,93.184.216.34,200,N/A,Example,N/A,true\n"));

    let txt = export_to_txt(&data);
    assert!(txt.contains("www.example.com"));
    assert!(txt.contains("YES"));
}

#[test]
fn discovered_time_renders_epoch() {
    let d = DiscoveredDomain {
        domain: "www.example.com".to_string(),
        ip: "93.184.216.34".to_string(),
        record_type: "A".to_string(),
        timestamp: 0,
    };
    let s = SerializableDiscoveredDomain::from_discovered(&d);
    assert_eq!(s.formatted_time, "1970-01-01 00:00:00");
    assert_eq!(s.timestamp, 0);
}

#[test]
fn summary_groups_and_counts() {
    let discovered = vec![
        DiscoveredDomain {
            domain: "a.example.com".to_string(),
            ip: "1.2.3.4".to_string(),
            record_type: "A".to_string(),
            timestamp: 1,
        },
        DiscoveredDomain {
            domain: "b.example.com".to_string(),
            ip: "1.2.3.4".to_string(),
            record_type: "A".to_string(),
            timestamp: 2,
        },
        DiscoveredDomain {
            domain: "c.example.com".to_string(),
            ip: "1.2.3.9".to_string(),
            record_type: "A".to_string(),
            timestamp: 3,
        },
        DiscoveredDomain {
            domain: "d.example.com".to_string(),
            ip: "target.example.net".to_string(),
            record_type: "CNAME".to_string(),
            timestamp: 4,
        },
    ];
    let verified = vec![
        VerificationResult {
            domain: "a.example.com".to_string(),
            ip: "1.2.3.4".to_string(),
            http_status: Some(200),
            https_status: None,
            title: None,
            server: None,
            is_alive: true,
        },
        VerificationResult {
            domain: "c.example.com".to_string(),
            ip: "1.2.3.9".to_string(),
            http_status: None,
            https_status: None,
            title: None,
            server: None,
            is_alive: false,
        },
    ];
    let s = generate_summary(&discovered, &verified);
    assert_eq!(s.total_domains, 4);
    assert_eq!(s.unique_ips, vec!["1.2.3.4".to_string(), "1.2.3.9".to_string()]);
    assert_eq!(s.ip_ranges.len(), 1);
    assert_eq!(s.ip_ranges[0].0, "1.2.3.0/24");
    assert_eq!(s.ip_ranges[0].1.len(), 3);
    assert_eq!(
        s.record_types,
        vec![("A".to_string(), 3usize), ("CNAME".to_string(), 1usize)]
    );
    assert_eq!(s.verified_domains, 2);
    assert_eq!(s.alive_domains, 1);
}

#[test]
fn scan_counters_read_back() {
    let mut c = ScanCounters::new();
    assert_eq!(c.get_recv_index(), 0);
    c.set_recv_index(3);
    c.set_faild_index(4);
    c.set_send_index(5);
    c.set_success_index(6);
    assert_eq!(c.get_recv_index(), 3);
    assert_eq!(c.get_faild_index(), 4);
    assert_eq!(c.get_send_index(), 5);
    assert_eq!(c.get_success_index(), 6);
}
