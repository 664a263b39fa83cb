use taskline::backends::redis_queue::{pop_schedule_script_code, POP_SCHEDULE_SCRIPT, REDIS_BACKEND_POP_SCRIPT};
use taskline::backends::server_info::{is_supported_version, parse_server_version};
use taskline::prelude::{JsonRedisBackend, RedisBackend, RedisBackendConfig, Taskline, TasklineConfig};

fn client() -> redis::Client {
    redis::Client::open("redis://127.0.0.1/").unwrap()
}

#[test]
fn version_from_info_text() {
    let info = "# Server\r\nredis_version:7.0.11\r\nredis_git_sha1:00000000\r\n";
    assert_eq!(parse_server_version(info), Some((7, 0)));
}

#[test]
fn version_on_last_line_without_line_feed() {
    assert_eq!(parse_server_version("redis_version:6.2"), Some((6, 2)));
    assert_eq!(parse_server_version("a\nredis_version:6.2.14"), Some((6, 2)));
}

#[test]
fn version_carriage_return_kept_on_unterminated_line() {
    assert_eq!(parse_server_version("redis_version:6.2\r"), None);
    assert_eq!(parse_server_version("redis_version:6.2\r\n"), Some((6, 2)));
    assert_eq!(parse_server_version("redis_version:6.2.1\r"), Some((6, 2)));
}

#[test]
fn version_missing_line_or_pieces() {
    assert_eq!(parse_server_version(""), None);
    assert_eq!(parse_server_version("# Server\r\nredis_mode:standalone\r\n"), None);
    assert_eq!(parse_server_version("redis_version:7\r\n"), None);
    assert_eq!(parse_server_version("redis_version:\r\n"), None);
    assert_eq!(parse_server_version("redis_version:.\r\n"), None);
    assert_eq!(parse_server_version("redis_version:7.x\r\n"), None);
    assert_eq!(parse_server_version("redis_version:256.0\r\n"), None);
    assert_eq!(parse_server_version("redis_version:-1.0\r\n"), None);
    assert_eq!(parse_server_version("redis_version:+.0\r\n"), None);
}

#[test]
fn version_pieces_read_as_u8_from_str() {
    assert_eq!(parse_server_version("redis_version:+7.+2"), Some((7, 2)));
    assert_eq!(parse_server_version("redis_version:007.0002.1"), Some((7, 2)));
    assert_eq!(parse_server_version("redis_version:255.255"), Some((255, 255)));
    assert_eq!("+7".parse::<u8>().ok(), Some(7));
    assert_eq!("+".parse::<u8>().ok(), None);
}

#[test]
fn version_first_matching_line_and_last_colon() {
    let info = "x_redis_version:a:5.4\nredis_version:8.0\n";
    assert_eq!(parse_server_version(info), Some((5, 4)));
    let info = "redis_version_x:1\nredis_version:8.0\n";
    assert_eq!(parse_server_version(info), Some((8, 0)));
    let info = "role:master\nredis_version:8.1.2\n";
    assert_eq!(parse_server_version(info), Some((8, 1)));
    let info = "\n\n\nredis_version:6.0.0\n\n";
    assert_eq!(parse_server_version(info), Some((6, 0)));
}

#[test]
fn version_with_non_ascii_text_around() {
    let info = "motd:héllo wörld\r\nredis_version:7.2.4\r\n";
    assert_eq!(parse_server_version(info), Some((7, 2)));
}

#[test]
fn supported_versions() {
    assert!(is_supported_version((6, 2)));
    assert!(is_supported_version((6, 3)));
    assert!(is_supported_version((7, 0)));
    assert!(!is_supported_version((6, 1)));
    assert!(!is_supported_version((5, 9)));
    assert!(!is_supported_version((0, 255)));
}

#[test]
fn redis_backend_settings() {
    let backend = RedisBackend::new(client(), "taskline".to_string(), 10, true);
    assert_eq!(backend.queue_key(), "taskline");
    assert_eq!(backend.read_limit(), 10);
    assert_eq!(backend.autodelete_arg(), 1);
    assert!(!backend.needs_explicit_delete());

    let backend = RedisBackendConfig {
        queue_key: "queue".to_string(),
        read_batch_size: 3,
        autodelete: false,
    }
    .with_client(client());
    assert_eq!(backend.queue_key(), "queue");
    assert_eq!(backend.read_limit(), 3);
    assert_eq!(backend.autodelete_arg(), 0);
    assert!(backend.needs_explicit_delete());
    assert_eq!(backend.client().get_connection_info().redis.db, 0);
}

#[test]
fn json_backend_wraps_the_backend() {
    let json = JsonRedisBackend::<u32>::new(RedisBackend::new(client(), "k".to_string(), 7, false));
    assert_eq!(json.backend().queue_key(), "k");
    assert_eq!(json.backend().read_limit(), 7);
    assert!(json.backend().needs_explicit_delete());
}

#[test]
fn taskline_default_config() {
    let queue = Taskline::new(TasklineConfig::<i32>::new().build(), client());
    assert_eq!(*queue.queue_key(), 0);
    assert_eq!(queue.read_limit(), 50);
    assert_eq!(queue.autodelete_arg(), 1);
    assert!(!queue.needs_explicit_delete());
}

#[test]
fn taskline_config_builders() {
    let config = TasklineConfig::<&str>::new()
        .queue_key("taskline-queue")
        .read_batch_size(5)
        .autodelete(false)
        .build();
    let queue = Taskline::new(config, client());
    assert_eq!(*queue.queue_key(), "taskline-queue");
    assert_eq!(queue.read_limit(), 5);
    assert_eq!(queue.autodelete_arg(), 0);
    assert!(queue.needs_explicit_delete());

    let config = TasklineConfig::<String>::default().queue_key("q").read_batch_size(1).read_batch_size(2);
    let queue = Taskline::new(config, client());
    assert_eq!(queue.queue_key(), "q");
    assert_eq!(queue.read_limit(), 2);
}

#[test]
fn scripts_are_made_of_the_pop_code() {
    let a = RedisBackend::new(client(), "k".to_string(), 1, true);
    let b = Taskline::new(TasklineConfig::<i32>::new(), client());
    assert_eq!(a.pop_schedule_script().get_hash(), redis::Script::new(REDIS_BACKEND_POP_SCRIPT).get_hash());
    assert_eq!(b.pop_schedule_script().get_hash(), redis::Script::new(POP_SCHEDULE_SCRIPT).get_hash());
    assert_eq!(pop_schedule_script_code(), POP_SCHEDULE_SCRIPT);
    assert!(POP_SCHEDULE_SCRIPT.contains("'(' .. unix_ts"));
    assert!(REDIS_BACKEND_POP_SCRIPT.contains("'(' .. unix_ts"));
    assert_ne!(a.pop_schedule_script().get_hash(), b.pop_schedule_script().get_hash());
}

#[test]
fn clones_keep_settings_and_script() {
    let a = RedisBackend::new(client(), "k".to_string(), 4, false);
    let c = a.clone();
    assert_eq!(c.queue_key(), "k");
    assert_eq!(c.read_limit(), 4);
    assert!(c.needs_explicit_delete());
    assert_eq!(c.pop_schedule_script().get_hash(), a.pop_schedule_script().get_hash());

    let j = JsonRedisBackend::<u8>::new(a).clone();
    assert_eq!(j.backend().queue_key(), "k");

    let t = Taskline::new(TasklineConfig::<&str>::new().queue_key("q").read_batch_size(3), client()).clone();
    assert_eq!(*t.queue_key(), "q");
    assert_eq!(t.read_limit(), 3);

    let config = RedisBackendConfig { queue_key: "x".to_string(), read_batch_size: 2, autodelete: true };
    let copy = config.clone();
    assert_eq!(copy.queue_key, "x");
    assert_eq!(format!("{:?}", copy.read_batch_size), "2");
}

fn version_by_std(res: &str) -> Option<(u8, u8)> {
    let mut ver = res
        .lines()
        .find(|s| s.contains("redis_version:"))?
        .split(':')
        .last()?
        .split('.')
        .take(2);
    let major: u8 = ver.next()?.parse().ok()?;
    let minor: u8 = ver.next()?.parse().ok()?;
    Some((major, minor))
}

#[test]
fn version_agrees_with_std_string_functions() {
    let pieces = [
        "", "redis_version:", "redis_version:7.0.11", "6.2", ":", ".", "+", "-", "\r", "\n", "\r\n",
        "x", "256", "255.1", "9", "0", "é", "redis_", "version:", "+1.+2", "..3",
    ];
    let mut checked = 0;
    for a in pieces.iter() {
        for b in pieces.iter() {
            for c in pieces.iter() {
                let info = format!("{}{}{}", a, b, c);
                assert_eq!(parse_server_version(&info), version_by_std(&info), "input {:?}", info);
                checked += 1;
            }
        }
    }
    assert_eq!(checked, pieces.len() * pieces.len() * pieces.len());
}
