use http_server::router::{Dispatch, Router};

#[test]
fn router_miss_reports_method_not_allowed() {
    // routes [("/static", GET -> 1), ("/", any -> 2)]; a POST under
    // /static must hit the first route's dispatch and fail on the
    // method, not fall through to the catch-all
    let mut router: Router<u8> = Router::new();
    router.route(b"/static".to_vec(), String::from("GET"), 1);
    router.route_any(b"/".to_vec(), 2);

    // the request path arrives normalized, without its leading slash
    let path = b"static/x".to_vec();
    match router.dispatch(&path, &String::from("POST")) {
        Dispatch::MethodNotAllowed => (),
        Dispatch::Handler(h) => panic!("fell through to handler {}", h),
        Dispatch::NotFound => panic!("missed the /static route"),
    }
}

#[test]
fn first_matching_route_wins() {
    let mut router: Router<u8> = Router::new();
    router.route(b"/static".to_vec(), String::from("GET"), 1);
    router.route_any(b"/".to_vec(), 2);

    match router.dispatch(&b"static/x".to_vec(), &String::from("GET")) {
        Dispatch::Handler(h) => assert_eq!(*h, 1),
        _ => panic!(),
    }
    match router.dispatch(&b"anything/else".to_vec(), &String::from("POST")) {
        Dispatch::Handler(h) => assert_eq!(*h, 2),
        _ => panic!(),
    }
}

#[test]
fn empty_router_reports_not_found() {
    let router: Router<u8> = Router::new();
    assert!(matches!(
        router.dispatch(&b"anything".to_vec(), &String::from("GET")),
        Dispatch::NotFound
    ));
}

#[test]
fn prefix_matching_is_component_wise() {
    let mut router: Router<u8> = Router::new();
    router.route_any(b"/html".to_vec(), 1);

    // "htmlish" shares the byte prefix but not the component
    assert!(matches!(
        router.dispatch(&b"htmlish/page".to_vec(), &String::from("GET")),
        Dispatch::NotFound
    ));
    assert!(matches!(
        router.dispatch(&b"html/page".to_vec(), &String::from("GET")),
        Dispatch::Handler(&1)
    ));
}

#[test]
fn route_adds_methods_to_an_existing_prefix() {
    let mut router: Router<u8> = Router::new();
    router.route(b"/api".to_vec(), String::from("GET"), 1);
    router.route(b"/api".to_vec(), String::from("POST"), 2);

    assert!(matches!(
        router.dispatch(&b"api/x".to_vec(), &String::from("GET")),
        Dispatch::Handler(&1)
    ));
    assert!(matches!(
        router.dispatch(&b"api/x".to_vec(), &String::from("POST")),
        Dispatch::Handler(&2)
    ));
    assert!(matches!(
        router.dispatch(&b"api/x".to_vec(), &String::from("PUT")),
        Dispatch::MethodNotAllowed
    ));
}
