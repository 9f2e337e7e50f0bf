use tuwunel::identifiers::alice;
use tuwunel::identifiers::bob;
use tuwunel::identifiers::charlie;
use tuwunel::identifiers::ella;
use tuwunel::identifiers::event_id;
use tuwunel::identifiers::has_char;
use tuwunel::identifiers::room_id;
use tuwunel::identifiers::try_event_id;

#[test]
fn short_name_is_an_id_on_server_foo() {
    assert_eq!(event_id("CREATE"), "$CREATE:foo");
    assert_eq!(event_id("l"), "$l:foo");
    assert_eq!(event_id("a-b.c9"), "$a-b.c9:foo");
}

#[test]
fn name_with_sigil_is_kept() {
    assert_eq!(event_id("$IMA:foo"), "$IMA:foo");
    assert_eq!(event_id("$IMA:example.org"), "$IMA:example.org");
    assert_eq!(event_id("$Rqnc-F-dvnEYJTyHq_iKxU2bZ1CI92-kuZq3a5lr5Zg"), "$Rqnc-F-dvnEYJTyHq_iKxU2bZ1CI92-kuZq3a5lr5Zg");
}

#[test]
fn expanding_twice_is_expanding_once() {
    let once = event_id("IPOWER");
    assert_eq!(event_id(&once), once);
}

#[test]
fn different_names_stand_for_different_events() {
    assert_ne!(event_id("PA"), event_id("PB"));
}

#[test]
fn text_that_is_not_an_event_id_is_turned_down() {
    assert_eq!(try_event_id("a$b"), None);
    assert_eq!(try_event_id("x$y:foo"), None);
    assert_eq!(try_event_id("$a:"), None);
    assert_eq!(try_event_id(&"a".repeat(300)), None);
    assert_eq!(try_event_id("IMB"), Some("$IMB:foo".to_owned()));
}

#[test]
fn users_and_room() {
    assert_eq!(alice(), "@alice:foo");
    assert_eq!(bob(), "@bob:foo");
    assert_eq!(charlie(), "@charlie:foo");
    assert_eq!(ella(), "@ella:foo");
    assert_eq!(room_id(), "!test:foo");
}

#[test]
fn characters_are_found() {
    assert!(has_char("ab$c", '$'));
    assert!(has_char("\u{e9}$", '$'));
    assert!(!has_char("abc", '$'));
    assert!(!has_char("", '$'));
}
