use bslib::board::{decode_indexes, decode_ship_placing_input, OwnBoard, Ship, ShipType};
use bslib::error::{
    ConnectError, ConnectionError, HandlingError, PacketError, PlacingShipsError, RequestError,
    ResponseError, UserInputError,
};

#[test]
fn ship_sizes_and_names() {
    assert_eq!(Ship::new(ShipType::Carrier).size(), 5);
    assert_eq!(Ship::new(ShipType::Battleship).size(), 4);
    assert_eq!(Ship::new(ShipType::Cruiser).size(), 3);
    assert_eq!(Ship::new(ShipType::Submarine).size(), 3);
    assert_eq!(Ship::new(ShipType::Destroyer).size(), 2);
    assert_eq!(Ship::new(ShipType::Carrier).name(), "carrier");
    assert_eq!(Ship::new(ShipType::Destroyer).name(), "destroyer");
}

#[test]
fn decode_single_coordinates() {
    assert_eq!(decode_indexes("a1").unwrap(), (0, 0));
    assert_eq!(decode_indexes("b2").unwrap(), (1, 1));
    assert_eq!(decode_indexes("j10").unwrap(), (9, 9));
    assert!(decode_indexes("a0").is_err());
    assert!(decode_indexes("a11").is_err());
    assert!(decode_indexes("k1").is_err());
    assert!(decode_indexes("a").is_err());
    assert!(decode_indexes("1a").is_err());
    assert!(decode_indexes("a1b").is_err());
    assert!(decode_indexes("").is_err());
}

#[test]
fn decode_placing_ranges() {
    let cruiser = Ship::new(ShipType::Cruiser);
    assert_eq!(
        decode_ship_placing_input("a1-a3", &cruiser).unwrap(),
        vec![(0, 0), (0, 1), (0, 2)]
    );
    // the reversed range names the same tiles
    assert_eq!(
        decode_ship_placing_input("a3-a1", &cruiser).unwrap(),
        vec![(0, 0), (0, 1), (0, 2)]
    );
    // a vertical range runs down a column
    assert_eq!(
        decode_ship_placing_input("a1-c1", &cruiser).unwrap(),
        vec![(0, 0), (1, 0), (2, 0)]
    );
    assert!(decode_ship_placing_input("a1a3", &cruiser).is_err());
    assert!(decode_ship_placing_input("a1-b2", &cruiser).is_err());
    assert!(decode_ship_placing_input("a1-a4", &cruiser).is_err());
    assert!(decode_ship_placing_input("a1-a2", &cruiser).is_err());
    assert!(decode_ship_placing_input("a1-a3-a5", &cruiser).is_err());
}

#[test]
fn placing_respects_neighbourhood() {
    let mut board = OwnBoard::new();
    let destroyer = Ship::new(ShipType::Destroyer);
    board.place_from_input(&destroyer, "a1-a2").expect("free tiles");
    assert_eq!(board.ship_at(0, 0), Some(ShipType::Destroyer));
    assert_eq!(board.ship_at(0, 1), Some(ShipType::Destroyer));
    assert_eq!(board.ship_at(0, 2), None);
    // the same tiles are taken
    assert!(board.place_from_input(&destroyer, "a1-a2").is_err());
    // an adjacent row touches the first ship
    assert!(board.place_from_input(&destroyer, "b1-b2").is_err());
    // one row further is fine
    board.place_from_input(&destroyer, "c1-c2").expect("free tiles");
}

#[test]
fn placing_bad_input_leaves_board_unchanged() {
    let mut board = OwnBoard::new();
    let carrier = Ship::new(ShipType::Carrier);
    assert!(board.place_from_input(&carrier, "nonsense").is_err());
    assert!(board.place_from_input(&carrier, "a1-a4").is_err());
    for i in 0..10 {
        for j in 0..10 {
            assert_eq!(board.ship_at(i, j), None);
        }
    }
}

fn full_fleet() -> Vec<Ship> {
    let battleship = Ship::new(ShipType::Battleship);
    let carrier = Ship::new(ShipType::Carrier);
    let submarine = Ship::new(ShipType::Submarine);
    let destroyer = Ship::new(ShipType::Destroyer);
    let cruiser = Ship::new(ShipType::Cruiser);
    vec![carrier, battleship, cruiser, submarine, destroyer]
}

fn fleet_inputs() -> Vec<String> {
    vec![
        String::from("a1-a5"),
        String::from("c1-c4"),
        String::from("e1-e3"),
        String::from("g1-g3"),
        String::from("i1-i2"),
    ]
}

#[test]
fn board_test_placing() {
    let mut my_board = OwnBoard::new();
    let ships = full_fleet();
    my_board.place_ships(&ships, &fleet_inputs()).expect("place ships nie dziala");
    assert!(my_board.ships_placed());
    assert_eq!(my_board.ship_at(0, 0), Some(ShipType::Carrier));
    assert_eq!(my_board.ship_at(2, 3), Some(ShipType::Battleship));
    assert_eq!(my_board.ship_at(8, 1), Some(ShipType::Destroyer));
}

#[test]
fn client_board_test_placing() {
    let mut my_board = OwnBoard::new();
    let ships = full_fleet();
    my_board.place_ships(&ships, &fleet_inputs()).expect("place ships nie dziala");
    // placing twice is refused
    assert!(my_board.place_ships(&ships, &fleet_inputs()).is_err());
}

#[test]
fn overlapping_fleet_is_refused() {
    let mut board = OwnBoard::new();
    let ships = full_fleet();
    let inputs = vec![
        String::from("a1-a5"),
        String::from("b1-b4"),
        String::from("e1-e3"),
        String::from("g1-g3"),
        String::from("i1-i2"),
    ];
    assert!(board.place_ships(&ships, &inputs).is_err());
    assert!(!board.ships_placed());
}

#[test]
fn error_messages() {
    assert_eq!(
        UserInputError::new(String::from("Missing hyphen")).message(),
        "Missing hyphen"
    );
    assert_eq!(
        PlacingShipsError::new(String::from("Tile is not empty")).message(),
        "Tile is not empty"
    );
    assert_eq!(
        RequestError::new(String::from("Response not received")).message(),
        "Response not received"
    );
    assert_eq!(ResponseError::new(String::from("bad reply")).message(), "bad reply");
    assert_eq!(PacketError::new("Wrong body type").message(), "Wrong body type");
    assert_eq!(ConnectError::new("no slot").message(), "no slot");
    assert_eq!(HandlingError::new("lock poisoned").message(), "lock poisoned");
    assert_eq!(ConnectionError::new(String::from("refused")).message(), "refused");
}
