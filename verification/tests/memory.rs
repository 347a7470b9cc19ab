use ciroach::models::raw::{decode_memory, ConfigError, RawStep, DEFAULT_MEMORY_LIMIT};

fn step_with_memory(memory: Option<&str>) -> RawStep {
    RawStep {
        image: "alpine".to_string(),
        command: "true".to_string(),
        memory: memory.map(|m| m.to_string()),
        needs: None,
        env: None,
        matrix: None,
        max_retries: None,
        timeout: None,
    }
}

#[test]
fn memory_units_are_powers_of_1024() {
    assert_eq!(step_with_memory(Some("1gb")).memory_limit(), Ok(1073741824));
    assert_eq!(step_with_memory(Some("512mb")).memory_limit(), Ok(536870912));
    assert_eq!(step_with_memory(Some("1024kb")).memory_limit(), Ok(1048576));
    assert_eq!(step_with_memory(Some("2048")).memory_limit(), Ok(2048));
}

#[test]
fn memory_defaults_to_512_mib() {
    assert_eq!(step_with_memory(None).memory_limit(), Ok(DEFAULT_MEMORY_LIMIT));
    assert_eq!(DEFAULT_MEMORY_LIMIT, 536870912);
}

#[test]
fn memory_is_lowercased_before_it_is_read() {
    assert_eq!(step_with_memory(Some("1GB")).memory_limit(), Ok(1073741824));
    assert_eq!(step_with_memory(Some("2Mb")).memory_limit(), Ok(2097152));
    // The Kelvin sign lowercases to the letter k.
    assert_eq!(step_with_memory(Some("1\u{212A}b")).memory_limit(), Ok(1024));
    // The decoder itself reads lower-case text only.
    assert_eq!(decode_memory("1GB"), Err(ConfigError::InvalidMemory("1GB".to_string())));
}

#[test]
fn malformed_memory_is_rejected_with_the_offending_value() {
    assert_eq!(
        step_with_memory(Some("lots")).memory_limit(),
        Err(ConfigError::InvalidMemory("lots".to_string()))
    );
    assert_eq!(
        step_with_memory(Some("1.5gb")).memory_limit(),
        Err(ConfigError::InvalidMemory("1.5".to_string()))
    );
    assert_eq!(
        step_with_memory(Some("")).memory_limit(),
        Err(ConfigError::InvalidMemory("".to_string()))
    );
    assert_eq!(
        step_with_memory(Some("gb")).memory_limit(),
        Err(ConfigError::InvalidMemory("".to_string()))
    );
}
