use fractal_tribute::board::{Board, BoardInput};
use fractal_tribute::masks::{AssetError, BoardSize, MaskStore};
use fractal_tribute::render::{
    board_to_png, data_uri, hash_bytes, hash_key, render, BoardToPngInput, RenderError,
};
use fractal_tribute::render_cache::RenderCache;
use fractal_tribute::tile::{Color, Tile};

fn blank_tile() -> Tile {
    Tile { color: None, graphic_option: None }
}

fn tiles_with(x: usize, y: usize, r: u8, g: u8, b: u8, option: u8) -> Vec<Vec<Tile>> {
    let mut tiles = vec![vec![blank_tile(); 50]; 50];
    tiles[x][y] = Tile { color: Some(Color { r, g, b }), graphic_option: Some(option) };
    tiles
}

fn request(tiles: Vec<Vec<Tile>>, size: &str) -> BoardToPngInput {
    BoardToPngInput { board: BoardInput { tiles }, board_size: size.to_string() }
}

fn loaded_store() -> MaskStore {
    let mut store = MaskStore::new();
    let small = vec![vec![255u8; 4 * 600 * 600]; 17];
    let large = vec![vec![0u8; 4 * 2000 * 2000]; 17];
    assert_eq!(store.initialize_masks(small, large), Ok(()));
    store
}

#[allow(deprecated)]
fn pixels_of(uri: &str) -> image::RgbaImage {
    let payload = uri.strip_prefix("data:image/png;base64,").unwrap();
    let png = base64::decode(payload).unwrap();
    assert_eq!(&png[..8], &[0x89, b'P', b'N', b'G', 0x0d, 0x0a, 0x1a, 0x0a]);
    image::load_from_memory(&png).unwrap().to_rgba8()
}

#[test]
fn size_class_is_read_from_its_name() {
    assert_eq!(BoardSize::parse("Small"), Some(BoardSize::Small));
    assert_eq!(BoardSize::parse("Large"), Some(BoardSize::Large));
    assert_eq!(BoardSize::parse("small"), None);
    assert_eq!(BoardSize::parse(""), None);
    assert_eq!(BoardSize::parse("Small "), None);
    assert_eq!("Large".parse::<BoardSize>(), Ok(BoardSize::Large));
    assert_eq!("Huge".parse::<BoardSize>(), Err(()));
}

#[test]
fn size_class_fixes_image_and_tile_size() {
    assert_eq!(BoardSize::Small.pixels(), 600);
    assert_eq!(BoardSize::Large.pixels(), 2000);
    assert_eq!(BoardSize::Small.tile_size(), 12);
    assert_eq!(BoardSize::Large.tile_size(), 40);
}

#[test]
fn fnv_hash_of_known_inputs() {
    assert_eq!(hash_bytes(&vec![]), 0xcbf2_9ce4_8422_2325);
    assert_eq!(hash_bytes(&vec![b'a']), 0xaf63_dc4c_8601_ec8c);
    assert_eq!(hash_bytes(&b"foobar".to_vec()), 0x8594_4171_f739_67e8);
}

#[test]
fn key_tells_boards_and_sizes_apart() {
    let a = Board::from_board_input(&BoardInput { tiles: tiles_with(0, 0, 1, 2, 3, 4) }).unwrap();
    let b = Board::from_board_input(&BoardInput { tiles: tiles_with(0, 0, 1, 2, 3, 5) }).unwrap();
    assert_eq!(hash_key(&a, BoardSize::Small), hash_key(&a, BoardSize::Small));
    assert_ne!(hash_key(&a, BoardSize::Small), hash_key(&a, BoardSize::Large));
    assert_ne!(hash_key(&a, BoardSize::Small), hash_key(&b, BoardSize::Small));
    let mut material = a.to_bytes();
    material.push(1);
    assert_eq!(hash_key(&a, BoardSize::Large), hash_bytes(&material));
}

#[test]
fn data_uri_wraps_base64() {
    assert_eq!(data_uri(&vec![]), "data:image/png;base64,");
    assert_eq!(data_uri(&b"hello".to_vec()), "data:image/png;base64,aGVsbG8=");
    assert_eq!(data_uri(&vec![0xfb, 0xff]), "data:image/png;base64,+/8=");
}

#[test]
fn store_starts_unloaded_and_loads_once() {
    let mut store = MaskStore::new();
    assert!(!store.is_loaded());
    assert!(store.get(BoardSize::Small).is_none());
    let short = vec![vec![0u8; 10]; 17];
    let small = vec![vec![0u8; 4 * 600 * 600]; 17];
    let large = vec![vec![0u8; 4 * 2000 * 2000]; 17];
    assert_eq!(store.initialize_masks(short.clone(), large.clone()), Err(AssetError::ShortMask));
    assert!(!store.is_loaded());
    assert_eq!(store.initialize_masks(small.clone(), short), Err(AssetError::ShortMask));
    assert!(!store.is_loaded());
    assert_eq!(store.initialize_masks(vec![], large.clone()), Err(AssetError::WrongCount));
    assert!(!store.is_loaded());
    let mut marked = small.clone();
    marked[3][0] = 99;
    assert_eq!(store.initialize_masks(marked, large), Ok(()));
    assert!(store.is_loaded());
    assert_eq!(store.get(BoardSize::Small).unwrap().len(), 17);
    assert_eq!(store.get(BoardSize::Large).unwrap().len(), 17);
    assert_eq!(store.get(BoardSize::Small).unwrap()[3].dimensions(), (600, 600));
    assert_eq!(store.get(BoardSize::Large).unwrap()[3].dimensions(), (2000, 2000));
    assert_eq!(store.get(BoardSize::Small).unwrap()[3].pixel(0, 0).unwrap().r, 99);
    // a second load is a no-op, whatever it is given
    assert_eq!(store.initialize_masks(vec![], vec![]), Ok(()));
    assert_eq!(store.get(BoardSize::Small).unwrap()[3].pixel(0, 0).unwrap().r, 99);
}

#[test]
fn small_board_renders_to_a_png_of_600_pixels() {
    let store = loaded_store();
    let mut cache = RenderCache::new(100);
    let uri = board_to_png(&mut cache, &store, &request(tiles_with(1, 2, 200, 100, 50, 34), "Small"))
        .unwrap();
    let image = pixels_of(&uri);
    assert_eq!(image.dimensions(), (600, 600));
    assert_eq!(image.get_pixel(12, 24).0, [200, 100, 50, 255]);
    assert_eq!(image.get_pixel(23, 35).0, [200, 100, 50, 255]);
    assert_eq!(image.get_pixel(24, 24).0, [255, 255, 255, 255]);
    assert_eq!(image.get_pixel(11, 24).0, [255, 255, 255, 255]);
    assert_eq!(image.get_pixel(12, 36).0, [255, 255, 255, 255]);
    assert_eq!(image.get_pixel(0, 0).0, [255, 255, 255, 255]);
}

#[test]
fn rendering_through_masks_reaches_the_png() {
    let store = loaded_store();
    let mut cache = RenderCache::new(100);
    // every small mask is opaque white: a blended pattern shows the mask
    let blended = board_to_png(&mut cache, &store, &request(tiles_with(0, 0, 1, 2, 3, 22), "Small"))
        .unwrap();
    assert_eq!(pixels_of(&blended).get_pixel(5, 5).0, [255, 255, 255, 255]);
    let stencil = board_to_png(&mut cache, &store, &request(tiles_with(0, 0, 1, 2, 3, 5), "Small"))
        .unwrap();
    assert_eq!(pixels_of(&stencil).get_pixel(5, 5).0, [1, 2, 3, 255]);
    let nothing = board_to_png(&mut cache, &store, &request(tiles_with(0, 0, 1, 2, 3, 40), "Small"))
        .unwrap();
    assert_eq!(pixels_of(&nothing).get_pixel(5, 5).0, [255, 255, 255, 255]);
    assert_eq!(cache.len(), 3);
}

#[test]
fn rendering_twice_gives_the_same_text() {
    let store = loaded_store();
    let board =
        Board::from_board_input(&BoardInput { tiles: tiles_with(7, 7, 9, 8, 7, 3) }).unwrap();
    let masks = store.get(BoardSize::Small).unwrap();
    let first = render(&board, masks, BoardSize::Small).unwrap();
    let second = render(&board, masks, BoardSize::Small).unwrap();
    assert_eq!(first, second);
}

#[test]
fn cache_answers_the_second_request() {
    let store = loaded_store();
    let mut cache = RenderCache::new(100);
    let input = request(tiles_with(1, 2, 200, 100, 50, 34), "Small");
    let first = board_to_png(&mut cache, &store, &input).unwrap();
    assert_eq!(cache.len(), 1);
    let second = board_to_png(&mut cache, &store, &input).unwrap();
    assert_eq!(first, second);
    assert_eq!(cache.len(), 1);
    // a hit needs no masks
    let third = board_to_png(&mut cache, &MaskStore::new(), &input).unwrap();
    assert_eq!(first, third);
    let key = hash_key(&Board::from_board_input(&input.board).unwrap(), BoardSize::Small);
    assert_eq!(cache.get(key), Some(first));
}

#[test]
fn cached_and_fresh_rendering_agree() {
    let store = loaded_store();
    let mut cache = RenderCache::new(1);
    let a = request(tiles_with(1, 2, 200, 100, 50, 34), "Small");
    let b = request(tiles_with(2, 1, 50, 100, 200, 34), "Small");
    let fresh_a = board_to_png(&mut RenderCache::new(1), &store, &a).unwrap();
    let fresh_b = board_to_png(&mut RenderCache::new(1), &store, &b).unwrap();
    assert_ne!(fresh_a, fresh_b);
    assert_eq!(board_to_png(&mut cache, &store, &a).unwrap(), fresh_a);
    assert_eq!(board_to_png(&mut cache, &store, &b).unwrap(), fresh_b);
    assert_eq!(board_to_png(&mut cache, &store, &a).unwrap(), fresh_a);
    assert_eq!(cache.len(), 1);
}

#[test]
fn unknown_size_class_is_rejected() {
    let store = loaded_store();
    let mut cache = RenderCache::new(100);
    let r = board_to_png(&mut cache, &store, &request(tiles_with(0, 0, 1, 1, 1, 34), "Medium"));
    assert_eq!(r, Err(RenderError::InvalidBoardSize));
    assert_eq!(cache.len(), 0);
}

#[test]
fn board_of_wrong_shape_is_rejected() {
    let store = loaded_store();
    let mut cache = RenderCache::new(100);
    let r = board_to_png(&mut cache, &store, &request(vec![vec![blank_tile(); 50]; 49], "Small"));
    assert_eq!(r, Err(RenderError::InvalidBoard));
    assert_eq!(cache.len(), 0);
}

#[test]
fn rendering_without_masks_is_an_error() {
    let mut cache = RenderCache::new(100);
    let r = board_to_png(
        &mut cache,
        &MaskStore::new(),
        &request(tiles_with(0, 0, 1, 1, 1, 34), "Small"),
    );
    assert_eq!(r, Err(RenderError::MasksNotInitialized));
    assert_eq!(cache.len(), 0);
}

#[test]
fn large_board_renders_to_a_png_of_2000_pixels() {
    let store = loaded_store();
    let mut cache = RenderCache::new(100);
    let uri = board_to_png(&mut cache, &store, &request(tiles_with(49, 0, 1, 2, 3, 17), "Large"))
        .unwrap();
    let image = pixels_of(&uri);
    assert_eq!(image.dimensions(), (2000, 2000));
    // every large mask is clear: a blended pattern paints the fill
    assert_eq!(image.get_pixel(1960, 0).0, [1, 2, 3, 255]);
    assert_eq!(image.get_pixel(1999, 39).0, [1, 2, 3, 255]);
    assert_eq!(image.get_pixel(1959, 0).0, [255, 255, 255, 255]);
    assert_eq!(image.get_pixel(1999, 40).0, [255, 255, 255, 255]);
}
