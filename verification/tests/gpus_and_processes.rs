use nv_smi::gpu::{gpu_list_eq, parse_float, parse_gpus, parse_gpus_csv, GpuInfo};
use nv_smi::process::{get_embedding_models, get_llama_server_info};
use nv_smi::reading::Real;

fn float(x: f64) -> Real {
    Real { bits: x.to_bits() }
}

fn gpu(id: usize, temperature: f64) -> GpuInfo<Real> {
    GpuInfo {
        id,
        temperature: float(temperature),
        fan_speed: float(30.0),
        power_usage: 120,
        power_cap: 350,
        memory_used: 1000,
        memory_total: 24576,
        gpu_util: float(97.0),
    }
}

#[test]
fn gpus_of_comma_separated_values() {
    let gpus = parse_gpus_csv("45, 30, 120, 350, 1000, 24576, 97\n46.5, [N/A], 21.5, 350, 2, 3, 4, 5\n");
    assert_eq!(gpus.len(), 2);
    assert_eq!(
        gpus[0],
        GpuInfo {
            id: 0,
            temperature: "45".to_string(),
            fan_speed: "30".to_string(),
            power_usage: 120,
            power_cap: 350,
            memory_used: 1000,
            memory_total: 24576,
            gpu_util: "97".to_string(),
        }
    );
    assert_eq!(gpus[1].temperature, "46.5");
    assert_eq!(gpus[1].fan_speed, "[N/A]");
    assert_eq!(gpus[1].power_usage, 0);
    assert_eq!(gpus[1].gpu_util, "4");
}

#[test]
fn gpus_are_numbered_by_their_line() {
    let gpus = parse_gpus_csv("1,2,3,4,5,6,7\nbroken\n1,2,3,4,5,6,7\n");
    assert_eq!(gpus.len(), 2);
    assert_eq!(gpus[0].id, 0);
    assert_eq!(gpus[1].id, 2);
    assert_eq!(parse_gpus_csv("").len(), 0);
    assert_eq!(parse_gpus_csv("1,2,3,4,5,6").len(), 0);
    assert_eq!(parse_gpus_csv(",,,,,,").len(), 1);
}

#[test]
fn gpus_of_the_table() {
    let table = "| header |\n\
        +-----+\n\
        | 30%   45C    P8             21W / 350W |   1000MiB / 24576MiB |     97%      Default |\n\
        |  short 3% |\n\
        | 41%   50C    P2             99W / 300W |     12MiB / 24576MiB |      3%      Default |\n";
    let gpus = parse_gpus(table);
    assert_eq!(gpus.len(), 2);
    assert_eq!(
        gpus[0],
        GpuInfo {
            id: 0,
            temperature: "45".to_string(),
            fan_speed: "30".to_string(),
            power_usage: 21,
            power_cap: 350,
            memory_used: 1000,
            memory_total: 24576,
            gpu_util: "97".to_string(),
        }
    );
    assert_eq!(gpus[1].id, 1);
    assert_eq!(gpus[1].power_usage, 99);
    assert_eq!(parse_gpus("").len(), 0);
    assert_eq!(parse_gpus("|\n||\n").len(), 0);
}

#[test]
fn units_are_dropped() {
    assert_eq!(parse_float("97%"), "97");
    assert_eq!(parse_float("45C"), "45");
    assert_eq!(parse_float("C%4%5C"), "45");
    assert_eq!(parse_float(""), "");
}

#[test]
fn gpu_lists_are_compared_by_readings() {
    assert!(gpu_list_eq(&[], &[]));
    assert!(gpu_list_eq(&[gpu(0, 45.0)], &[gpu(7, 45.0)]));
    assert!(gpu_list_eq(&[gpu(0, 0.0)], &[gpu(0, -0.0)]));
    assert!(!gpu_list_eq(&[gpu(0, 45.0)], &[gpu(0, 46.0)]));
    assert!(!gpu_list_eq(&[gpu(0, 45.0)], &[]));
    assert!(!gpu_list_eq(&[gpu(0, f64::NAN)], &[gpu(0, f64::NAN)]));
    let mut other = gpu(0, 45.0);
    other.memory_used = 1001;
    assert!(!gpu_list_eq(&[gpu(0, 45.0)], &[other]));
}

#[test]
fn first_server_is_watched_without_a_log_file() {
    let ps = "USER PID\n\
        u 1 grep llama-server -m no.gguf\n\
        u 2 /bin/llama-server --port 8080\n\
        u 3 /bin/llama-server -m /models/a.gguf -c 8192 -np 2 -ngl 99 -fa --cont-batching --mmproj p.gguf\n\
        u 4 /bin/llama-server -m /models/b.gguf\n";
    let info = match get_llama_server_info(ps, None, "/home/u") {
        Some(info) => info,
        None => panic!("a server"),
    };
    assert_eq!(info.model, "/models/a.gguf");
    assert_eq!(info.context_len, 8192);
    assert_eq!(info.n_parallel, 2);
    assert!(info.multimodal);
    assert!(!info.embedding);
    let want: Vec<(String, String)> = [
        ("ngl", "99"),
        ("fa", "N/A"),
        ("mmproj", "p.gguf"),
    ]
    .iter()
    .map(|(k, v)| (k.to_string(), v.to_string()))
    .collect();
    assert_eq!(info.params, want);
}

#[test]
fn a_flag_without_a_value_takes_the_next_flag_with_it() {
    let ps = "llama-server -m a -t --cont-batching --cache-idle-slots -c -np x -ctk q8 -m";
    let info = match get_llama_server_info(ps, None, "") {
        Some(info) => info,
        None => panic!("a server"),
    };
    let want: Vec<(String, String)> = [
        ("t", "N/A"),
        ("cache-idle-slots", "on"),
        ("ctk", "q8"),
    ]
    .iter()
    .map(|(k, v)| (k.to_string(), v.to_string()))
    .collect();
    assert_eq!(info.params, want);
    assert_eq!(info.context_len, 0);
    assert_eq!(info.n_parallel, 0);
    assert_eq!(info.model, "a");
}

#[test]
fn no_server_no_info() {
    assert!(get_llama_server_info("", None, "").is_none());
    assert!(get_llama_server_info("u 1 bash\n", None, "").is_none());
    assert!(get_llama_server_info("llama-server\n", None, "").is_none());
    assert!(get_llama_server_info("llama-server -m a\n", Some("/x.log"), "").is_none());
}

#[test]
fn last_server_with_the_log_file_is_watched() {
    let ps = "llama-server -m a --log-file /l/1.log\n\
        llama-server -m b --log-file $HOME/2.log\n\
        llama-server -m c --log-file ~/home/u/2.log\n\
        llama-server -m d --log-file /l/3.log\n\
        llama-server -m e --log-file\n";
    let model = |log: &str| get_llama_server_info(ps, Some(log), "/home/u").map(|i| i.model);
    assert_eq!(model("/l/1.log"), Some("a".to_string()));
    assert_eq!(model("/home/u/2.log"), Some("c".to_string()));
    assert_eq!(model("$HOME/2.log"), Some("b".to_string()));
    assert_eq!(model("N/A"), Some("e".to_string()));
    assert_eq!(model("/l/4.log"), None);
    let info = match get_llama_server_info(ps, Some("/l/3.log"), "/home/u") {
        Some(info) => info,
        None => panic!("a server"),
    };
    assert_eq!(info.params, vec![("log-file".to_string(), "/l/3.log".to_string())]);
}

#[test]
fn home_is_put_in_everywhere() {
    let ps = "llama-server -m a --log-file ~~$HOME/x/$HOME\n";
    assert!(get_llama_server_info(ps, Some("/h/x//h"), "/h").is_some());
    assert!(get_llama_server_info(ps, Some("/x/"), "").is_some());
}

#[test]
fn embedding_models_are_listed_in_order() {
    let ps = "llama-server -m /m/a.gguf --embedding\n\
        llama-server -m /m/b.gguf\n\
        u grep llama-server -m x --embedding\n\
        llama-server --embedding\n\
        llama-server --embedding -m c --log-file /l/main.log\n\
        llama-server --log-file /l/e.log -m d --embedding\n";
    let names = |list: &[&str]| Some(list.iter().map(|s| s.to_string()).collect::<Vec<String>>());
    assert_eq!(get_embedding_models(ps, None), names(&["/m/a.gguf", "c", "d"]));
    assert_eq!(get_embedding_models(ps, Some("/l/main.log")), names(&["/m/a.gguf", "d"]));
    assert_eq!(get_embedding_models("", None), None);
    assert_eq!(get_embedding_models("llama-server -m b\n", None), None);
}

#[test]
fn a_trailing_model_flag_forgets_the_embedding_model() {
    assert_eq!(get_embedding_models("llama-server -m a --embedding -m", None), None);
    assert_eq!(
        get_embedding_models("llama-server -m --embedding --embedding", None),
        Some(vec!["--embedding".to_string()])
    );
}
