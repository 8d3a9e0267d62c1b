use stardust_xr_wayland_service::client::{Client, Interface};
use stardust_xr_wayland_service::error::WaylandError;
use stardust_xr_wayland_service::event::Event;
use stardust_xr_wayland_service::message::{Message, MessageSink, SourceRef};
use stardust_xr_wayland_service::protocols::wl::data_device::{
    handle_message, offer_selection, Clipboard, DataDevice, DataDeviceManager, DataSource,
};
use stardust_xr_wayland_service::types::{Fd, ObjectId, FIRST_SERVER_ID};

fn id(raw: u32) -> ObjectId {
    ObjectId { raw }
}

const COPIER: MessageSink = MessageSink { raw: 1 };
const PASTER: MessageSink = MessageSink { raw: 2 };

fn types() -> Vec<String> {
    vec!["text/plain".to_string(), "text/html".to_string()]
}

fn source(client: &mut Client) -> DataSource {
    let mut source = DataDeviceManager.create_data_source(client, id(20)).unwrap();
    for mime_type in types() {
        source.offer(mime_type);
    }
    source
}

fn offered(offer: u32) -> Vec<Event> {
    vec![
        Event::DataDeviceDataOffer { device: id(30), offer: id(offer) },
        Event::DataOfferOffer { offer: id(offer), mime_type: "text/plain".to_string() },
        Event::DataOfferOffer { offer: id(offer), mime_type: "text/html".to_string() },
        Event::DataDeviceSelection { device: id(30), offer: Some(id(offer)) },
    ]
}

#[test]
fn copied_data_can_be_pasted_by_another_client() {
    let mut clipboard = Clipboard::new();
    clipboard.register_client(COPIER);
    clipboard.register_client(PASTER);
    let mut copier = Client::new();
    let mut paster = Client::new();
    let mut first_device = None;
    DataDeviceManager
        .get_data_device(&mut paster, &clipboard, &mut first_device, id(30))
        .unwrap();
    assert_eq!(first_device, Some(id(30)));
    assert_eq!(paster.take_outgoing(), vec![]);

    let source = source(&mut copier);
    let device = DataDevice { id: id(21) };
    let mut messages =
        device.set_selection(&mut clipboard, COPIER, Some(id(20)), Some(&source)).unwrap();
    let sinks: Vec<MessageSink> = messages.iter().map(|m| m.0).collect();
    assert_eq!(sinks, vec![COPIER, PASTER]);
    let told = messages.pop().unwrap().1;
    let offer = handle_message(&mut paster, first_device, told).unwrap().unwrap();
    assert_eq!(paster.take_outgoing(), offered(FIRST_SERVER_ID));
    assert!(paster.has(id(FIRST_SERVER_ID), Interface::DataOffer));

    let (owner, request) = offer.receive("text/html".to_string(), Fd { raw: 7 });
    assert_eq!(owner, COPIER);
    assert_eq!(handle_message(&mut copier, None, request), Ok(None));
    assert_eq!(
        copier.take_outgoing(),
        vec![Event::DataSourceSend {
            source: id(20),
            mime_type: "text/html".to_string(),
            fd: Fd { raw: 7 },
        }]
    );
    offer.destroy(&mut paster);
    assert!(!paster.has_any(id(FIRST_SERVER_ID)));
}

#[test]
fn late_devices_learn_of_the_selection() {
    let mut clipboard = Clipboard::new();
    let mut copier = Client::new();
    let source = source(&mut copier);
    let messages = DataDevice { id: id(21) }
        .set_selection(&mut clipboard, COPIER, Some(id(20)), Some(&source))
        .unwrap();
    assert!(messages.is_empty());
    let mut paster = Client::new();
    let mut first_device = None;
    let offer = DataDeviceManager
        .get_data_device(&mut paster, &clipboard, &mut first_device, id(30))
        .unwrap()
        .unwrap();
    assert_eq!(offer.source, SourceRef { source: id(20), owner: COPIER });
    assert_eq!(paster.take_outgoing(), offered(FIRST_SERVER_ID));
    // Only the first device counts.
    DataDeviceManager
        .get_data_device(&mut paster, &clipboard, &mut first_device, id(31))
        .unwrap();
    assert_eq!(first_device, Some(id(30)));
    assert_eq!(
        DataDeviceManager.get_data_device(
            &mut paster,
            &clipboard,
            &mut first_device,
            id(31)
        ),
        Err(WaylandError::FailedToInsertObject)
    );
}

#[test]
fn selections_can_be_taken_away() {
    let mut clipboard = Clipboard::new();
    clipboard.register_client(PASTER);
    let mut copier = Client::new();
    let source = source(&mut copier);
    let device = DataDevice { id: id(21) };
    device.set_selection(&mut clipboard, COPIER, Some(id(20)), Some(&source)).unwrap();
    assert_eq!(
        device.set_selection(&mut clipboard, COPIER, Some(id(22)), None),
        Err(WaylandError::MissingObject(id(22)))
    );
    assert!(clipboard.selection.is_some());
    assert_eq!(device.set_selection(&mut clipboard, COPIER, None, None), Ok(vec![]));
    assert!(clipboard.selection.is_none());
}

#[test]
fn offers_need_a_device() {
    let mut client = Client::new();
    let source = SourceRef { source: id(20), owner: COPIER };
    assert_eq!(
        offer_selection(&mut client, id(30), source, &types()),
        Err(WaylandError::MissingObject(id(30)))
    );
    assert_eq!(client.take_outgoing(), vec![]);
    let told = Message::ClipboardSelection { source, mime_types: types() };
    assert_eq!(handle_message(&mut client, None, told), Ok(None));
    assert_eq!(client.take_outgoing(), vec![]);
}

#[test]
fn offers_have_ids_that_are_free() {
    let mut client = Client::new();
    let source = SourceRef { source: id(20), owner: COPIER };
    client.insert(id(30), Interface::DataDevice).unwrap();
    client.insert(id(FIRST_SERVER_ID), Interface::Surface).unwrap();
    let first = offer_selection(&mut client, id(30), source, &types()).unwrap();
    let second = offer_selection(&mut client, id(30), source, &types()).unwrap();
    assert_eq!((first.id, second.id), (id(FIRST_SERVER_ID + 1), id(FIRST_SERVER_ID + 2)));
    first.destroy(&mut client);
    assert_eq!(client.next_server_id(), Some(first.id));
}

#[test]
fn objects_can_be_destroyed() {
    let mut client = Client::new();
    let source = source(&mut client);
    assert!(client.has(id(20), Interface::DataSource));
    assert!(DataDeviceManager.create_data_source(&mut client, id(20)).is_err());
    source.destroy(&mut client);
    assert!(!client.has_any(id(20)));
    client.insert(id(30), Interface::DataDevice).unwrap();
    DataDevice { id: id(30) }.release(&mut client);
    assert!(!client.has_any(id(30)));
}
