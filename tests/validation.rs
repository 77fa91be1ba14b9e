use network_initializer::factory::{client_type, server_type, NodeType};
use network_initializer::topology::{Client, Config, Drone, Server};
use network_initializer::validate::ConfigError;

fn drone(id: u8, neighbors: &[u8]) -> Drone {
    Drone {
        id,
        connected_node_ids: neighbors.to_vec(),
        pdr_bits: 0.05f32.to_bits(),
    }
}

fn client(id: u8, neighbors: &[u8]) -> Client {
    Client {
        id,
        connected_drone_ids: neighbors.to_vec(),
    }
}

fn server(id: u8, neighbors: &[u8]) -> Server {
    Server {
        id,
        connected_drone_ids: neighbors.to_vec(),
    }
}

/// Two clients and two servers around a ring of four drones.
fn correct_config() -> Config {
    Config {
        drone: vec![
            drone(1, &[2, 4, 5]),
            drone(2, &[1, 3, 6]),
            drone(3, &[2, 4, 7]),
            drone(4, &[3, 1, 8]),
        ],
        client: vec![client(5, &[1]), client(6, &[2])],
        server: vec![server(7, &[3]), server(8, &[4])],
    }
}

#[test]
fn test_validate_config() {
    let config = correct_config();
    let validation = config.validate_config();
    assert!(validation.is_ok());
}

#[test]
fn test_unidirectional_error() {
    let config = Config {
        drone: vec![drone(1, &[2, 3]), drone(2, &[4])],
        client: vec![client(3, &[1])],
        server: vec![server(4, &[2])],
    };
    let validation = config.validate_config();
    assert_eq!(validation, Err(ConfigError::UnidirectedConnection));
}

#[test]
fn test_invalid_node_connection() {
    let config = Config {
        drone: vec![drone(2, &[1, 3]), drone(3, &[2, 3, 4])],
        client: vec![client(1, &[2])],
        server: vec![server(4, &[3])],
    };
    let validation = config.validate_config();
    assert_eq!(
        validation,
        Err(ConfigError::InvalidNodeConnection(
            "Drone 3 cannot be connected to itself".to_string()
        ))
    );
}

#[test]
fn self_loop_names_the_first_offender_with_its_full_id() {
    let config = Config {
        drone: vec![drone(2, &[1, 4])],
        client: vec![client(1, &[2])],
        server: vec![server(4, &[2]), server(205, &[205])],
    };
    assert_eq!(
        config.validate_config(),
        Err(ConfigError::InvalidNodeConnection(
            "Server 205 cannot be connected to itself".to_string()
        ))
    );
}

#[test]
fn self_loop_is_found_before_asymmetry() {
    let config = Config {
        drone: vec![drone(1, &[1, 2]), drone(2, &[])],
        client: vec![],
        server: vec![],
    };
    assert_eq!(
        config.validate_config(),
        Err(ConfigError::InvalidNodeConnection(
            "Drone 1 cannot be connected to itself".to_string()
        ))
    );
}

#[test]
fn client_to_server_is_refused() {
    let config = Config {
        drone: vec![drone(1, &[10])],
        client: vec![client(10, &[1, 20])],
        server: vec![server(20, &[10])],
    };
    assert_eq!(
        config.validate_config(),
        Err(ConfigError::InvalidNodeConnection(
            "Client 10 cannot be connected to Server 20".to_string()
        ))
    );
}

#[test]
fn isolated_edge_node_is_refused() {
    let config = Config {
        drone: vec![drone(1, &[2]), drone(2, &[1])],
        client: vec![client(7, &[])],
        server: vec![],
    };
    assert_eq!(
        config.validate_config(),
        Err(ConfigError::InvalidNodeConnection(
            "Client 7 is not connected to any node".to_string()
        ))
    );
}

#[test]
fn neighbor_that_does_not_exist_is_unidirected() {
    let config = Config {
        drone: vec![drone(1, &[9])],
        client: vec![],
        server: vec![],
    };
    assert_eq!(config.validate_config(), Err(ConfigError::UnidirectedConnection));
}

#[test]
fn empty_topology_is_valid() {
    let config = Config {
        drone: vec![],
        client: vec![],
        server: vec![],
    };
    assert_eq!(config.validate_config(), Ok(()));
    assert!(config.has_unique_ids());
}

#[test]
fn duplicate_ids_are_detected() {
    let mut config = correct_config();
    assert!(config.has_unique_ids());
    config.server[1].id = 2;
    assert!(!config.has_unique_ids());
}

#[test]
fn edge_behaviors_follow_position() {
    assert_eq!(client_type(0), NodeType::WebBrowser);
    assert_eq!(client_type(1), NodeType::ChatClient);
    assert_eq!(client_type(5), NodeType::ChatClient);
    assert_eq!(server_type(0), NodeType::TextServer);
    assert_eq!(server_type(1), NodeType::MediaServer);
    assert_eq!(server_type(2), NodeType::ChatServer);
    assert_eq!(server_type(3), NodeType::TextServer);
    assert_eq!(server_type(7), NodeType::MediaServer);
}
