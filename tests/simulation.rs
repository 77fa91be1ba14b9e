use crossbeam::channel::Receiver;
use network_initializer::factory::{DroneWiring, NodeType, NodeWiring};
use network_initializer::network::Network;
use network_initializer::network_initializer::{
    Launch, NetworkInitializer, Running, StopTarget, Uninitialized,
};
use network_initializer::topology::{Client, Config, Drone, Role, Server};
use network_initializer::validate::ConfigError;
use std::collections::HashSet;

#[derive(Debug, Clone, PartialEq)]
enum Packet {
    FloodRequest { flood_id: u64, initiator_id: u8 },
    Data(u32),
}

#[derive(Debug)]
enum NodeCommand {
    Shutdown,
}

#[derive(Debug, PartialEq)]
enum NodeEvent {
    Started(u8),
    Stopped(u8),
}

#[derive(Debug)]
enum DroneCommand {
    Crash,
}

#[derive(Debug, PartialEq)]
enum DroneEvent {
    PacketSeen(u8, Packet),
}

type Init<S> = NetworkInitializer<S, Packet, NodeCommand, NodeEvent, DroneCommand, DroneEvent>;
type Sim = Init<Running>;

fn drone(id: u8, neighbors: &[u8], pdr: f32) -> Drone {
    Drone {
        id,
        connected_node_ids: neighbors.to_vec(),
        pdr_bits: pdr.to_bits(),
    }
}

fn client(id: u8, neighbors: &[u8]) -> Client {
    Client {
        id,
        connected_drone_ids: neighbors.to_vec(),
    }
}

fn server(id: u8, neighbors: &[u8]) -> Server {
    Server {
        id,
        connected_drone_ids: neighbors.to_vec(),
    }
}

/// client 1 - drone 2 - drone 3 - server 4
fn simple_config() -> Config {
    Config {
        drone: vec![drone(2, &[1, 3], 0.0), drone(3, &[2, 4], 0.1)],
        client: vec![client(1, &[2])],
        server: vec![server(4, &[3])],
    }
}

/// Two clients on the left wing, three servers on the right, four drones in
/// the middle crossing over.
fn butterfly_config() -> Config {
    Config {
        drone: vec![
            drone(11, &[1, 2, 13, 14], 0.05),
            drone(12, &[1, 2, 13, 14], 0.1),
            drone(13, &[11, 12, 21, 22, 23], 0.0),
            drone(14, &[11, 12, 21, 22, 23], 0.2),
        ],
        client: vec![client(1, &[11, 12]), client(2, &[11, 12])],
        server: vec![
            server(21, &[13, 14]),
            server(22, &[13, 14]),
            server(23, &[13, 14]),
        ],
    }
}

type Agents = Launch<Packet, NodeCommand, NodeEvent, DroneCommand, DroneEvent>;

fn start(config: Config) -> (Sim, Agents) {
    Init::<Uninitialized>::new(config)
        .expect("valid config")
        .initialize()
        .start_simulation()
}

fn drone_of(agents: &Agents, id: u8) -> &DroneWiring<Packet, DroneCommand, DroneEvent> {
    agents.drones.iter().find(|w| w.id == id).unwrap()
}

fn node_of(agents: &Agents, id: u8) -> &NodeWiring<Packet, NodeCommand, NodeEvent> {
    agents.nodes.iter().find(|w| w.id == id).unwrap()
}

/// Carries out every shutdown step: drops the node's inbound channel, sends
/// its shutdown command, and checks that the node's command receiver got it.
/// Returns the ids in the order they were stopped.
fn stop(sim: &mut Sim, agents: &Agents) -> Vec<u8> {
    let mut order = Vec::new();
    for step in sim.stop_simulation() {
        assert!(step.packet_channel.is_some());
        drop(step.packet_channel);
        match step.target {
            StopTarget::Node(_, sender) => {
                assert!(sender.send(NodeCommand::Shutdown).is_ok());
                let got = node_of(agents, step.id).command_receiver.try_recv();
                assert!(matches!(got, Ok(NodeCommand::Shutdown)));
            }
            StopTarget::Drone(sender) => {
                assert!(sender.send(DroneCommand::Crash).is_ok());
                let got = drone_of(agents, step.id).command_receiver.try_recv();
                assert!(matches!(got, Ok(DroneCommand::Crash)));
            }
        }
        order.push(step.id);
    }
    order
}

fn adjacents_of(network: &Network, id: u8) -> Vec<u8> {
    network
        .nodes
        .iter()
        .find(|n| n.id == id)
        .unwrap()
        .get_adjacents()
        .clone()
}

#[test]
fn test_network_initializer() {
    let net_init = Init::<Uninitialized>::new(butterfly_config()).unwrap();
    let _net_init = net_init.initialize();

    println!("Initialized!");
}

#[test]
fn test_getters_after_running() {
    let (mut running, agents) = start(butterfly_config());

    let drones = running.get_drones();
    let clients = running.get_clients();
    let servers = running.get_servers();

    assert!(!drones.is_empty(), "Drones should not be empty");
    assert!(!clients.is_empty(), "Clients should not be empty");
    assert!(!servers.is_empty(), "Servers should not be empty");

    for (_, (_, tx)) in &drones {
        assert!(tx.send(DroneCommand::Crash).is_ok());
    }
    for (_, (_, tx)) in clients {
        assert!(tx.send(NodeCommand::Shutdown).is_ok());
    }
    for (_, (_, tx)) in servers {
        assert!(tx.send(NodeCommand::Shutdown).is_ok());
    }
    stop(&mut running, &agents);
}

#[test]
fn test_simple_config() {
    let config = simple_config();
    let (mut running_sim, agents) = start(config.clone());
    let drones = running_sim.get_drones();
    let clients = running_sim.get_clients();
    let servers = running_sim.get_servers();
    let network = running_sim.get_network_view();
    assert_eq!(drones.len(), 2, "Drones should be 2");
    assert_eq!(clients.len(), 1, "Client should be 1");
    assert_eq!(servers.len(), 1, "Server should be 1");
    assert_eq!(network.nodes.len(), 4, "Nodes should be 4");
    assert_eq!(
        clients.get(&1).unwrap().0,
        NodeType::WebBrowser,
        "Client should be a WebBrowser"
    );
    assert_eq!(
        servers.get(&4).unwrap().0,
        NodeType::TextServer,
        "Server should be a TextServer"
    );
    assert_eq!(
        adjacents_of(&network, 1),
        config.client.iter().find(|c| c.id == 1).unwrap().connected_drone_ids,
        "Adjacents of client 1 are not the expected"
    );
    assert_eq!(
        adjacents_of(&network, 2),
        config.drone.iter().find(|c| c.id == 2).unwrap().connected_node_ids,
        "Adjacents of drone 2 are not the expected"
    );
    assert_eq!(
        adjacents_of(&network, 3),
        config.drone.iter().find(|c| c.id == 3).unwrap().connected_node_ids,
        "Adjacents of drone 3 are not the expected"
    );
    assert_eq!(
        adjacents_of(&network, 4),
        config.server.iter().find(|s| s.id == 4).unwrap().connected_drone_ids,
        "Adjacents of server 4 are not the expected"
    );
    let comms = running_sim.get_comms_channels();
    if let Some(ch) = comms.get(&4) {
        let _ = ch.sender.send(Packet::FloodRequest {
            flood_id: 1,
            initiator_id: 1,
        });
    } else {
        panic!("Drone 2 channels not found");
    }

    assert!(matches!(
        node_of(&agents, 4).packet_receiver.try_recv(),
        Ok(Packet::FloodRequest { .. })
    ));

    stop(&mut running_sim, &agents);
}

#[test]
fn build_counts_match_the_topology() {
    let config = butterfly_config();
    let built = Init::<Uninitialized>::new(config).unwrap().initialize();
    let view_len = 4 + 2 + 3;
    let (running, launch) = built.start_simulation();
    assert_eq!(launch.drones.len(), 4);
    assert_eq!(launch.nodes.len(), 5);
    assert_eq!(launch.barrier_count, 5);
    assert_eq!(running.get_drones().len(), 4);
    assert_eq!(running.get_clients().len(), 2);
    assert_eq!(running.get_servers().len(), 3);
    assert_eq!(running.get_comms_channels().len(), view_len);
    assert_eq!(running.get_network_view().nodes.len(), view_len);
}

#[test]
fn launch_order_and_behaviors() {
    let (_running, launch) = Init::<Uninitialized>::new(butterfly_config())
        .unwrap()
        .initialize()
        .start_simulation();
    let drone_ids: Vec<(u8, usize)> = launch.drones.iter().map(|w| (w.id, w.index)).collect();
    assert_eq!(drone_ids, vec![(11, 0), (12, 1), (13, 2), (14, 3)]);
    let nodes: Vec<(u8, NodeType)> = launch.nodes.iter().map(|w| (w.id, w.node_type)).collect();
    assert_eq!(
        nodes,
        vec![
            (1, NodeType::WebBrowser),
            (2, NodeType::ChatClient),
            (21, NodeType::TextServer),
            (22, NodeType::MediaServer),
            (23, NodeType::ChatServer),
        ]
    );
    assert_eq!(launch.drones[3].pdr_bits, 0.2f32.to_bits());
}

#[test]
fn network_view_matches_declared_neighbors() {
    let config = butterfly_config();
    let (running, _launch) = Init::<Uninitialized>::new(config.clone())
        .unwrap()
        .initialize()
        .start_simulation();
    let network = running.get_network_view();
    let roles: Vec<(u8, Role)> = network.nodes.iter().map(|n| (n.id, n.node_type)).collect();
    assert_eq!(
        roles,
        vec![
            (11, Role::Drone),
            (12, Role::Drone),
            (13, Role::Drone),
            (14, Role::Drone),
            (1, Role::Client),
            (2, Role::Client),
            (21, Role::Server),
            (22, Role::Server),
            (23, Role::Server),
        ]
    );
    for d in &config.drone {
        assert_eq!(adjacents_of(&network, d.id), d.connected_node_ids);
    }
    for c in &config.client {
        assert_eq!(adjacents_of(&network, c.id), c.connected_drone_ids);
    }
    for s in &config.server {
        assert_eq!(adjacents_of(&network, s.id), s.connected_drone_ids);
    }
}

#[test]
fn neighbor_senders_reach_the_neighbor() {
    let (_running, launch) = Init::<Uninitialized>::new(simple_config())
        .unwrap()
        .initialize()
        .start_simulation();
    let drone2 = &launch.drones[0];
    let keys: HashSet<u8> = drone2.neighbors.keys().copied().collect();
    assert_eq!(keys, HashSet::from([1, 3]));
    drone2.neighbors[&1].send(Packet::Data(7)).unwrap();
    drone2.neighbors[&3].send(Packet::Data(8)).unwrap();
    assert_eq!(launch.nodes[0].packet_receiver.try_recv(), Ok(Packet::Data(7)));
    assert_eq!(launch.drones[1].packet_receiver.try_recv(), Ok(Packet::Data(8)));
    let server_keys: HashSet<u8> = launch.nodes[1].neighbors.keys().copied().collect();
    assert_eq!(server_keys, HashSet::from([3]));
}

#[test]
fn drops_probability_is_reported_per_drone() {
    let (running, _launch) = Init::<Uninitialized>::new(simple_config())
        .unwrap()
        .initialize()
        .start_simulation();
    let drones = running.get_drones();
    assert_eq!(f32::from_bits(drones[&2].0), 0.0);
    assert_eq!(f32::from_bits(drones[&3].0), 0.1);
}

#[test]
fn invalid_topology_builds_nothing() {
    let mut config = simple_config();
    config.server[0].connected_drone_ids = vec![1];
    let result = Init::<Uninitialized>::new(config);
    assert_eq!(
        result.err(),
        Some(ConfigError::InvalidNodeConnection(
            "Server 4 cannot be connected to Client 1".to_string()
        ))
    );
}

#[test]
fn stop_takes_edges_first_and_empties_the_maps() {
    let (mut running, agents) = start(butterfly_config());
    let order = stop(&mut running, &agents);
    assert_eq!(order, vec![1, 2, 21, 22, 23, 11, 12, 13, 14]);
    assert!(running.get_comms_channels().is_empty());
}

#[test]
fn stop_releases_every_inbound_channel() {
    let (mut running, agents) = start(simple_config());
    stop(&mut running, &agents);
    drop(running);
    let probe = drone_of(&agents, 2).neighbors[&1].clone();
    drop(agents);
    assert!(probe.send(Packet::Data(1)).is_err());
}

#[test]
fn edge_nodes_share_one_event_stream() {
    let (running, agents) = start(simple_config());
    let events: Receiver<NodeEvent> = running.get_nodes_event_receiver();
    node_of(&agents, 1).event_sender.send(NodeEvent::Started(1)).unwrap();
    node_of(&agents, 4).event_sender.send(NodeEvent::Started(4)).unwrap();
    node_of(&agents, 1).event_sender.send(NodeEvent::Stopped(1)).unwrap();
    assert_eq!(events.try_recv(), Ok(NodeEvent::Started(1)));
    assert_eq!(events.try_recv(), Ok(NodeEvent::Started(4)));
    assert_eq!(events.try_recv(), Ok(NodeEvent::Stopped(1)));
    assert!(events.try_recv().is_err());
}

#[test]
fn flood_packet_into_a_relay_is_delivered_and_stops_cleanly() {
    let (mut running, agents) = start(simple_config());
    let drone_events = running.get_drones_event_receiver();
    let flood = Packet::FloodRequest {
        flood_id: 1,
        initiator_id: 1,
    };
    running.get_comms_channels()[&2]
        .sender
        .send(flood.clone())
        .unwrap();
    let relay = drone_of(&agents, 2);
    let got = relay.packet_receiver.try_recv().unwrap();
    relay
        .event_sender
        .send(DroneEvent::PacketSeen(relay.id, got))
        .unwrap();
    assert_eq!(drone_events.try_recv(), Ok(DroneEvent::PacketSeen(2, flood)));
    let order = stop(&mut running, &agents);
    assert_eq!(order, vec![1, 4, 2, 3]);
    assert!(running.get_comms_channels().is_empty());
}

#[test]
fn getters_are_empty_after_stop_and_a_second_stop_does_nothing() {
    let (mut running, agents) = start(butterfly_config());
    stop(&mut running, &agents);
    assert!(running.get_drones().is_empty());
    assert!(running.get_clients().is_empty());
    assert!(running.get_servers().is_empty());
    assert!(running.get_comms_channels().is_empty());
    assert!(running.stop_simulation().is_empty());
    assert!(running.get_comms_channels().is_empty());
}

#[test]
fn getter_senders_reach_each_agent() {
    let (running, agents) = start(simple_config());
    for (id, (_, tx)) in running.get_drones() {
        tx.send(DroneCommand::Crash).unwrap();
        assert!(matches!(
            drone_of(&agents, id).command_receiver.try_recv(),
            Ok(DroneCommand::Crash)
        ));
    }
    for (id, (_, tx)) in running.get_clients().into_iter().chain(running.get_servers()) {
        tx.send(NodeCommand::Shutdown).unwrap();
        assert!(matches!(
            node_of(&agents, id).command_receiver.try_recv(),
            Ok(NodeCommand::Shutdown)
        ));
    }
    running.get_comms_channels()[&3].sender.send(Packet::Data(3)).unwrap();
    assert_eq!(drone_of(&agents, 3).packet_receiver.try_recv(), Ok(Packet::Data(3)));
}

#[test]
fn drones_report_on_the_shared_relay_stream() {
    let (running, agents) = start(simple_config());
    let events = running.get_drones_event_receiver();
    drone_of(&agents, 3)
        .event_sender
        .send(DroneEvent::PacketSeen(3, Packet::Data(9)))
        .unwrap();
    drone_of(&agents, 2)
        .event_sender
        .send(DroneEvent::PacketSeen(2, Packet::Data(8)))
        .unwrap();
    assert_eq!(events.try_recv(), Ok(DroneEvent::PacketSeen(3, Packet::Data(9))));
    assert_eq!(events.try_recv(), Ok(DroneEvent::PacketSeen(2, Packet::Data(8))));
}
